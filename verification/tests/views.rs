use rmux::layout::{SplitAxis, ViewLayout};
use rmux::manager::SessionManagerError;
use rmux::proto::TerminalSize;
use rmux::topology::{validate_layout, SessionRegistry};

fn leaf(id: &str) -> ViewLayout {
    ViewLayout::Terminal {
        terminal_id: id.into(),
    }
}

fn split(axis: SplitAxis, children: Vec<ViewLayout>) -> ViewLayout {
    ViewLayout::Split { axis, children }
}

#[test]
fn nested_splits_tile_the_canvas_with_cell_dividers() {
    let layout = ViewLayout::Split {
        axis: SplitAxis::Horizontal,
        children: vec![
            leaf("left"),
            ViewLayout::Split {
                axis: SplitAxis::Vertical,
                children: vec![leaf("top"), leaf("bottom")],
            },
        ],
    };
    let size = TerminalSize {
        columns: 100,
        rows: 40,
        pixel_width: 0,
        pixel_height: 0,
    };
    let panes = layout.pane_geometry(&size).unwrap();
    assert_eq!((panes[0].columns, panes[0].rows), (50, 40));
    assert_eq!(
        (panes[1].left, panes[1].top, panes[1].columns, panes[1].rows),
        (51, 0, 49, 20)
    );
    assert_eq!(
        (panes[2].left, panes[2].top, panes[2].columns, panes[2].rows),
        (51, 21, 49, 19)
    );
    assert_eq!(panes[1].rows + 1 + panes[2].rows, panes[0].rows);
    assert_eq!(panes[0].columns + 1 + panes[1].columns, size.columns);
}

#[test]
fn insufficient_canvas_is_rejected() {
    let layout = ViewLayout::Split {
        axis: SplitAxis::Horizontal,
        children: vec![leaf("a"), leaf("b")],
    };
    assert!(
        layout
            .pane_geometry(&TerminalSize {
                columns: 4,
                ..TerminalSize::default()
            })
            .is_err()
    );
}

#[test]
fn a_single_terminal_fills_the_canvas() {
    let panes = leaf("only").pane_geometry(&TerminalSize::default()).unwrap();
    assert_eq!(panes.len(), 1);
    assert_eq!(panes[0].terminal_id, "only");
    assert_eq!((panes[0].left, panes[0].top, panes[0].columns, panes[0].rows), (0, 0, 80, 24));
}

#[test]
fn layouts_need_room_for_every_terminal() {
    assert_eq!(leaf("a").minimum_size(), (2, 1));
    assert_eq!(
        split(SplitAxis::Horizontal, vec![leaf("a"), leaf("b"), leaf("c")]).minimum_size(),
        (8, 1)
    );
    assert_eq!(
        split(SplitAxis::Vertical, vec![leaf("a"), leaf("b")]).minimum_size(),
        (2, 3)
    );
}

#[test]
fn splitting_and_removing_a_terminal_gives_the_layout_back() {
    let mut layout = split(SplitAxis::Vertical, vec![leaf("a"), leaf("b")]);
    let before = layout.clone();
    layout.split_terminal("b", "c", SplitAxis::Horizontal);
    assert_eq!(layout.terminal_ids(), vec!["a", "b", "c"]);
    assert_eq!(layout.first_terminal(), "a");
    assert_eq!(layout.remove_terminal("c"), Some(before));
    assert_eq!(leaf("a").remove_terminal("a"), None);
    let untouched = leaf("a").remove_terminal("b");
    assert_eq!(untouched, Some(leaf("a")));
}

fn refused(message: &str) -> Result<(), SessionManagerError> {
    Err(SessionManagerError::InvalidView(message.to_owned()))
}

#[test]
fn layouts_are_bounded() {
    assert_eq!(validate_layout(&leaf("a"), 0), Ok(()));
    let children: Vec<ViewLayout> = (0..65).map(|i| leaf(&format!("t{i}"))).collect();
    assert_eq!(
        validate_layout(&split(SplitAxis::Horizontal, children), 0),
        refused("a view supports at most 64 terminals")
    );
    assert_eq!(
        validate_layout(&split(SplitAxis::Horizontal, vec![leaf("a")]), 0),
        refused("layout groups require 2 to 64 children")
    );
    let mut nested = leaf("deep");
    for level in 0..17 {
        nested = split(SplitAxis::Vertical, vec![nested, leaf(&format!("l{level}"))]);
    }
    assert_eq!(validate_layout(&nested, 0), refused("layout nesting exceeds 16"));
}

fn registry() -> SessionRegistry {
    let mut registry = SessionRegistry::new();
    assert!(registry.add_session("s1", "v1", "one", "t1", 10, false, TerminalSize::default()));
    assert!(registry.add_session("s2", "v2", "two", "t2", 20, false, TerminalSize::default()));
    registry
}

#[test]
fn sessions_merge_side_by_side_and_part_again() {
    let mut registry = registry();
    let change = registry.merge_sessions("two", "one").unwrap();
    assert_eq!(change.session_id, "s1");
    let widths: Vec<(String, u16)> = change
        .resizes
        .iter()
        .map(|resize| (resize.terminal_id.clone(), resize.terminal_size.columns))
        .collect();
    assert_eq!(widths, vec![("t1".to_owned(), 40), ("t2".to_owned(), 39)]);
    let view = registry.view_info("one").unwrap();
    assert_eq!(view.revision, 1);
    assert_eq!(view.layout, split(SplitAxis::Horizontal, vec![leaf("t1"), leaf("t2")]));
    assert_eq!(view.terminals.len(), 2);
    assert_eq!(
        registry.root("two"),
        Err(SessionManagerError::NotFound { selector: "two".to_owned() })
    );

    let moved = registry.promote_terminal("t2", Some("again".to_owned()), 30).unwrap().unwrap();
    assert_eq!(moved.session_id.len(), 36);
    assert_eq!(registry.root("again"), Ok(moved.session_id.clone()));
    let left = moved.change;
    assert_eq!(left.session_id, "s1");
    assert_eq!(left.resizes[0].terminal_size.columns, 80);
    assert_eq!(registry.view_info("one").unwrap().layout, leaf("t1"));
    assert_eq!(registry.view_info("again").unwrap().layout, leaf("t2"));
}

#[test]
fn a_promoted_terminal_needs_company() {
    let mut registry = registry();
    assert_eq!(
        registry.promote_terminal("t1", None, 30).map(|_| ()),
        refused("terminal is already the only terminal in its session")
    );
    assert_eq!(
        registry.promote_terminal("absent", None, 30).map(|_| ()),
        Err(SessionManagerError::NotFound { selector: "absent".to_owned() })
    );
    registry.merge_sessions("s2", "s1").unwrap();
    assert_eq!(
        registry.promote_terminal("t2", Some("one".to_owned()), 30).map(|_| ()),
        Err(SessionManagerError::AlreadyExists { name: "one".to_owned() })
    );
    let promoted = registry.promote_terminal("t2", None, 30).unwrap().unwrap();
    // The two refused promotions have used two automatic names up.
    assert_eq!(registry.view_info(&promoted.session_id).unwrap().session_name, "session-3");
}

#[test]
fn an_identifier_in_use_is_drawn_again_for_a_promotion_in_order() {
    let mut registry = registry();
    assert_eq!(
        registry
            .promote_into("t1", None, 30, "s2".to_owned(), "v3".to_owned())
            .map(|_| ()),
        refused("terminal is already the only terminal in its session")
    );
    registry.merge_sessions("s2", "s1").unwrap();
    assert_eq!(
        registry
            .promote_into("t2", Some("one".to_owned()), 30, "s1".to_owned(), "v3".to_owned())
            .map(|_| ()),
        Err(SessionManagerError::AlreadyExists { name: "one".to_owned() })
    );
    let in_use = registry
        .promote_into("t2", Some("own".to_owned()), 30, "s1".to_owned(), "v3".to_owned())
        .unwrap();
    assert!(in_use.is_none());
    assert_eq!(registry.view_info("one").unwrap().terminals.len(), 2);
    let moved = registry
        .promote_into("t2", Some("own".to_owned()), 30, "s3".to_owned(), "v3".to_owned())
        .unwrap();
    assert_eq!(moved.unwrap().session_id, "s1");
    assert_eq!(registry.root("own"), Ok("s3".to_owned()));
}

#[test]
fn an_edit_of_any_other_revision_is_refused() {
    let mut registry = registry();
    for revision in [1, u64::MAX] {
        assert_eq!(
            registry.update_view("one", revision, leaf("t1")).map(|_| ()),
            refused("view changed; reload before editing")
        );
    }
    assert!(registry.update_view("one", 0, leaf("t1")).is_ok());
}

#[test]
fn merges_are_refused_with_a_reason() {
    let mut registry = registry();
    assert_eq!(
        registry.merge_sessions("one", "s1").map(|_| ()),
        refused("cannot merge a session into itself")
    );
    assert_eq!(
        registry.merge_sessions("absent", "s1").map(|_| ()),
        Err(SessionManagerError::NotFound { selector: "absent".to_owned() })
    );
    assert!(registry.add_session("s3", "v3", "task", "t3", 1, true, TerminalSize::default()));
    assert_eq!(
        registry.merge_sessions("task", "one").map(|_| ()),
        refused("managed task sessions cannot be merged")
    );
    assert_eq!(registry.begin_termination("one"), Ok(vec!["t1".to_owned()]));
    assert_eq!(
        registry.merge_sessions("two", "one").map(|_| ()),
        refused("session is terminating")
    );
}

#[test]
fn views_change_only_from_what_was_seen() {
    let mut registry = registry();
    registry.merge_sessions("two", "one").unwrap();
    let layout = split(SplitAxis::Vertical, vec![leaf("t2"), leaf("t1")]);
    assert_eq!(
        registry.update_view("one", 0, layout.clone()).map(|_| ()),
        refused("view changed; reload before editing")
    );
    assert_eq!(
        registry.update_view("one", 1, split(SplitAxis::Vertical, vec![leaf("t1"), leaf("t1")])).map(|_| ()),
        refused("layout must contain each owned terminal exactly once")
    );
    registry.update_view("one", 1, layout.clone()).unwrap();
    let view = registry.view_info("s1").unwrap();
    assert_eq!(view.layout, layout);
    assert_eq!(view.revision, 2);
    assert_eq!(view.panes[0].terminal_id, "t2");
}

#[test]
fn a_split_is_planned_within_its_view() {
    let mut registry = registry();
    let (owner, layout) = registry.plan_split("t1", "new", SplitAxis::Horizontal).unwrap();
    assert_eq!(owner.session_id, "s1");
    assert_eq!(owner.name, "one");
    assert_eq!(layout, split(SplitAxis::Horizontal, vec![leaf("t1"), leaf("new")]));
    assert!(registry.add_session("s3", "v3", "task", "t3", 1, true, TerminalSize::default()));
    assert_eq!(
        registry.plan_split("t3", "new", SplitAxis::Horizontal).map(|_| ()),
        refused("managed task terminals cannot be split")
    );
    let small = TerminalSize { columns: 4, rows: 4, pixel_width: 0, pixel_height: 0 };
    assert!(registry.add_session("s4", "v4", "small", "t4", 1, false, small));
    assert!(registry.plan_split("t4", "new", SplitAxis::Horizontal).is_err());
}

#[test]
fn a_session_goes_with_its_last_terminal() {
    let mut registry = registry();
    registry.merge_sessions("two", "one").unwrap();
    let change = registry.remove_terminal("t1").unwrap();
    assert_eq!(change.session_id, "s1");
    assert_eq!(change.resizes[0].terminal_id, "t2");
    assert_eq!(change.resizes[0].terminal_size.columns, 80);
    assert!(registry.remove_terminal("t2").is_none());
    assert!(registry.root("one").is_err());
    assert!(registry.remove_terminal("t2").is_none());
}

#[test]
fn panes_get_their_share_of_the_pixels() {
    let mut registry = registry();
    registry.merge_sessions("two", "one").unwrap();
    let size = TerminalSize { columns: 101, rows: 10, pixel_width: 1010, pixel_height: 200 };
    let resizes = registry.plan_resize("s1", size).unwrap();
    assert_eq!(
        resizes[0].terminal_size,
        TerminalSize { columns: 50, rows: 10, pixel_width: 500, pixel_height: 200 }
    );
    assert_eq!(resizes[1].terminal_size.columns, 50);
    registry.set_canvas("s1", size);
    assert_eq!(registry.view_info("s1").unwrap().canvas_size, size);
    assert_eq!(registry.view_info("s1").unwrap().revision, 2);
}

#[test]
fn terminals_report_the_grid_they_got() {
    let mut registry = registry();
    let size = TerminalSize { columns: 40, rows: 10, pixel_width: 0, pixel_height: 0 };
    registry.set_terminal_size("t1", size);
    assert_eq!(registry.view_info("one").unwrap().terminals[0].terminal_size, size);
}
