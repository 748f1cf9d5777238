use menu_nav::EventLog;
use menu_nav::Item;
use menu_nav::Menu;

const COUNTER1: u64 = 1;
const COUNTER2: u64 = 2;
const FLAG: u64 = 3;

fn fired_count(host: &EventLog, id: u64) -> usize {
    host.fired_log().iter().filter(|&&x| x == id).count()
}

fn demo_tree() -> Vec<Item> {
    vec![
        Item::new_submenu(
            "sub".to_string(),
            vec![
                Item::new_action("counter1".to_string(), COUNTER1),
                Item::new_action("counter2".to_string(), COUNTER2),
            ],
        ),
        Item::new_action("flag".to_string(), FLAG),
    ]
}

fn test_menu(menu: &mut Menu, host: &mut EventLog) {
    // go into sub
    menu.ok(host);
    // skip to counter 2
    menu.skip(host);
    // trigger counter2
    menu.ok(host);
    // go back
    menu.skip(host);
    menu.ok(host);
    // set flag
    menu.skip(host);
    menu.ok(host);
    // go to sub again
    menu.skip(host);
    menu.ok(host);
    // trigger counter 1
    menu.ok(host);
    assert!(fired_count(host, FLAG) > 0, "falg not set");
    assert_eq!(fired_count(host, COUNTER1), 1, "counter 1 wrong");
    assert_eq!(fired_count(host, COUNTER2), 1, "counter 2 wrong");
}

#[test]
fn test_std() {
    let mut host = EventLog::new();
    let mut menu = Menu::new(demo_tree(), &mut host);
    test_menu(&mut menu, &mut host);
}

#[test]
fn test_no_std() {
    let mut host = EventLog::new();
    let sub_items = vec![
        Item::new_action("counter1".to_string(), COUNTER1),
        Item::new_action("counter2".to_string(), COUNTER2),
    ];
    let items = vec![
        Item::new_submenu("sub".to_string(), sub_items),
        Item::new_action("flag".to_string(), FLAG),
    ];
    let mut menu = Menu::new(items, &mut host);
    test_menu(&mut menu, &mut host);
}

#[test]
fn end_to_end_display_trace() {
    let mut host = EventLog::new();
    let mut menu = Menu::new(demo_tree(), &mut host);
    // select: descend into sub, now at counter1
    menu.ok(&mut host);
    // advance: cursor 0 -> 1, highlight counter2
    menu.skip(&mut host);
    // select: counter2 += 1
    menu.ok(&mut host);
    // advance: cursor 1 -> 2 = Back
    menu.skip(&mut host);
    // select: ascend, depth 0, sub cursor reset to 0
    menu.ok(&mut host);
    // advance: root cursor 0 -> 1, highlight flag
    menu.skip(&mut host);
    // select: flag = true
    menu.ok(&mut host);
    // advance: root cursor 1 -> 0, highlight sub
    menu.skip(&mut host);
    // select: descend, sub cursor is 0 = counter1
    menu.ok(&mut host);
    // select: counter1 += 1
    menu.ok(&mut host);

    assert_eq!(host.fired_log(), &vec![COUNTER2, FLAG, COUNTER1]);
    let expected = vec![
        "sub", "counter1", "counter2", "counter2", "Back", "sub", "flag", "flag", "sub",
        "counter1", "counter1",
    ];
    let shown: Vec<&str> = host.shown_log().iter().map(|s| s.as_str()).collect();
    assert_eq!(shown, expected);
}

#[test]
fn root_cycle_excludes_back() {
    // Three advances on a three-child root come back to the first entry,
    // and Back never shows at root level.
    let mut host = EventLog::new();
    let items = vec![
        Item::new_action("a".to_string(), 10),
        Item::new_action("b".to_string(), 11),
        Item::new_action("c".to_string(), 12),
    ];
    let mut menu = Menu::new(items, &mut host);
    menu.skip(&mut host);
    menu.skip(&mut host);
    menu.skip(&mut host);
    let shown: Vec<&str> = host.shown_log().iter().map(|s| s.as_str()).collect();
    assert_eq!(shown, vec!["a", "b", "c", "a"]);
    assert!(!shown.contains(&"Back"));
}

#[test]
fn nested_cycle_includes_back() {
    // Below root, a two-child submenu cycles in three steps: both children,
    // then Back, then around again.
    let mut host = EventLog::new();
    let mut menu = Menu::new(demo_tree(), &mut host);
    menu.ok(&mut host);
    menu.skip(&mut host);
    menu.skip(&mut host);
    menu.skip(&mut host);
    let shown: Vec<&str> = host.shown_log().iter().map(|s| s.as_str()).collect();
    assert_eq!(shown, vec!["sub", "counter1", "counter2", "Back", "counter1"]);
}

#[test]
fn cursor_resets_on_ascend() {
    // Move the submenu cursor, leave through Back, re-enter: the cursor is
    // back at the first child.
    let mut host = EventLog::new();
    let mut menu = Menu::new(demo_tree(), &mut host);
    menu.ok(&mut host); // descend: counter1
    menu.skip(&mut host); // counter2
    menu.skip(&mut host); // Back
    menu.ok(&mut host); // ascend: sub highlighted at root
    menu.ok(&mut host); // descend again
    let shown = host.shown_log();
    assert_eq!(shown[shown.len() - 1], "counter1");
}

#[test]
fn selecting_action_changes_no_state() {
    let mut host = EventLog::new();
    let mut menu = Menu::new(demo_tree(), &mut host);
    menu.ok(&mut host); // descend: counter1
    menu.ok(&mut host); // run counter1
    menu.ok(&mut host); // run counter1 again
    assert_eq!(host.fired_log(), &vec![COUNTER1, COUNTER1]);
    let shown: Vec<&str> = host.shown_log().iter().map(|s| s.as_str()).collect();
    assert_eq!(shown, vec!["sub", "counter1", "counter1", "counter1"]);
}

#[test]
fn active_decoration_follows_flag() {
    const TASK: u64 = 21;
    const TASK_FLAG: u64 = 42;
    let mut host = EventLog::new();
    let items = vec![Item::new_action("task".to_string(), TASK).show_active(TASK_FLAG)];
    let mut menu = Menu::new(items, &mut host);
    assert_eq!(host.shown_log()[0], "task");
    host.set_active(TASK_FLAG);
    menu.skip(&mut host); // single child: wraps onto itself, redisplays
    assert_eq!(host.shown_log()[1], "* task *");
    host.clear_active(TASK_FLAG);
    menu.skip(&mut host);
    assert_eq!(host.shown_log()[2], "task");
}

#[test]
fn submenu_decoration_follows_flag() {
    const SUB_FLAG: u64 = 7;
    let mut host = EventLog::new();
    let items = vec![
        Item::new_submenu(
            "jobs".to_string(),
            vec![Item::new_action("run".to_string(), 1)],
        )
        .show_active(SUB_FLAG),
        Item::new_action("other".to_string(), 2),
    ];
    let mut menu = Menu::new(items, &mut host);
    assert_eq!(host.shown_log()[0], "jobs");
    host.set_active(SUB_FLAG);
    menu.skip(&mut host);
    menu.skip(&mut host); // back around to the submenu entry
    let shown: Vec<&str> = host.shown_log().iter().map(|s| s.as_str()).collect();
    assert_eq!(shown, vec!["jobs", "other", "* jobs *"]);
}

#[test]
fn two_levels_down_and_back() {
    const Y: u64 = 31;
    let mut host = EventLog::new();
    let items = vec![
        Item::new_submenu(
            "sub1".to_string(),
            vec![
                Item::new_submenu(
                    "sub2".to_string(),
                    vec![Item::new_action("x".to_string(), 30)],
                ),
                Item::new_action("y".to_string(), Y),
            ],
        ),
        Item::new_action("z".to_string(), 32),
    ];
    let mut menu = Menu::new(items, &mut host);
    menu.ok(&mut host); // descend into sub1
    menu.ok(&mut host); // descend into sub2
    menu.skip(&mut host); // one child: next is Back
    menu.ok(&mut host); // ascend to sub1, sub2 cursor reset
    menu.skip(&mut host); // y
    menu.ok(&mut host); // run y
    menu.skip(&mut host); // Back
    menu.ok(&mut host); // ascend to root
    menu.skip(&mut host); // z
    let shown: Vec<&str> = host.shown_log().iter().map(|s| s.as_str()).collect();
    assert_eq!(
        shown,
        vec!["sub1", "sub2", "x", "Back", "sub2", "y", "y", "Back", "sub1", "z"]
    );
    assert_eq!(host.fired_log(), &vec![Y]);
}

#[test]
fn entered_submenu_keeps_prior_cursor_until_back() {
    // Descend, move to the second child, run it, and confirm the cursor
    // stays put across the action.
    let mut host = EventLog::new();
    let mut menu = Menu::new(demo_tree(), &mut host);
    menu.ok(&mut host); // descend
    menu.skip(&mut host); // counter2
    menu.ok(&mut host); // run counter2: no cursor movement
    menu.ok(&mut host); // run counter2 again
    assert_eq!(host.fired_log(), &vec![COUNTER2, COUNTER2]);
}
