use help_nav::catalog::Page;
use help_nav::pager::{
    decode_event, render_page, HelpError, MsgInfo, Nav, NavEvent, Pager, Phase, Step, CANCEL_ID,
    SELECT_ID,
};

fn page(cat: &str, body: &str) -> Page {
    Page { category: cat.to_string(), body: body.to_string() }
}

fn three_pages() -> Vec<Page> {
    vec![
        page("Uncategorized", "/ping - Pong\n"),
        page("Fun", "/echo - Echoes\n"),
        page("Mod", "/ban - Bans\n"),
    ]
}

fn button(id: &str) -> NavEvent {
    NavEvent { custom_id: id.to_string(), selected: None }
}

fn select(values: &[&str]) -> NavEvent {
    NavEvent {
        custom_id: SELECT_ID.to_string(),
        selected: Some(values.iter().map(|v| v.to_string()).collect()),
    }
}

const MSG: MsgInfo = MsgInfo { channel_id: 7, message_id: 42 };

#[test]
fn first_page_renders_page_one() {
    let pages = three_pages();
    let v = Pager::first_page(&pages).unwrap();
    assert_eq!(v.title, "Uncategorized (Page 1)");
    assert_eq!(v.body, "/ping - Pong\n");
    assert!(v.previous_disabled);
    assert!(!v.next_disabled);
    assert_eq!(v.previous_id, "hnav:-1");
    assert_eq!(v.next_id, "hnav:1");
    let labels: Vec<&str> = v.options.iter().map(|o| o.label.as_str()).collect();
    assert_eq!(labels, vec!["Uncategorized (current)", "Fun", "Mod"]);
    let values: Vec<&str> = v.options.iter().map(|o| o.value.as_str()).collect();
    assert_eq!(values, vec!["0", "1", "2"]);
}

#[test]
fn empty_catalog_is_an_error() {
    assert!(matches!(Pager::first_page(&Vec::new()), Err(HelpError::NoPages)));
}

#[test]
fn select_last_category_from_first_page() {
    let pages = three_pages();
    let mut p = Pager::new(pages.len(), MSG);
    match p.handle(&pages, &select(&["2"])) {
        Step::Edit { target, view } => {
            assert_eq!(target, MSG);
            assert_eq!(view.title, "Mod (Page 3)");
            assert!(!view.previous_disabled);
            assert!(view.next_disabled);
            assert_eq!(view.options[2].label, "Mod (current)");
            assert_eq!(view.previous_id, "hnav:1");
            assert_eq!(view.next_id, "hnav:3");
        }
        _ => panic!("expected an edit"),
    }
    assert_eq!(p.index, 2);
    assert_eq!(p.phase, Phase::Showing);
}

#[test]
fn empty_selection_fails_session() {
    let pages = three_pages();
    let mut p = Pager::new(pages.len(), MSG);
    assert!(matches!(p.handle(&pages, &select(&[])), Step::Fail(HelpError::NoValueSelected)));
    assert_eq!(p.phase, Phase::Failed);
    assert_eq!(p.index, 0);
    assert!(p.is_finished());
}

#[test]
fn select_without_string_values_fails() {
    let pages = three_pages();
    let mut p = Pager::new(pages.len(), MSG);
    assert!(matches!(p.handle(&pages, &button(SELECT_ID)), Step::Fail(HelpError::NotAStringSelect)));
}

#[test]
fn cancel_deletes_message() {
    let pages = three_pages();
    let mut p = Pager::new(pages.len(), MSG);
    match p.handle(&pages, &button(CANCEL_ID)) {
        Step::Delete { target } => assert_eq!(target, MSG),
        _ => panic!("expected a delete"),
    }
    assert_eq!(p.phase, Phase::Cancelled);
}

#[test]
fn next_and_previous_buttons_walk_pages() {
    let pages = three_pages();
    let mut p = Pager::new(pages.len(), MSG);
    for (id, want, prev_off, next_off) in [
        ("hnav:1", 1usize, false, false),
        ("hnav:2", 2, false, true),
        ("hnav:1", 1, false, false),
        ("hnav:0", 0, true, false),
    ] {
        match p.handle(&pages, &button(id)) {
            Step::Edit { target, view } => {
                assert_eq!(target, MSG);
                assert_eq!(view.previous_disabled, prev_off);
                assert_eq!(view.next_disabled, next_off);
                assert_eq!(view.title, format!("{} (Page {})", pages[want].category, want + 1));
            }
            _ => panic!("expected an edit"),
        }
        assert_eq!(p.index, want);
    }
}

#[test]
fn out_of_range_targets_fail() {
    let pages = three_pages();
    let mut p = Pager::new(pages.len(), MSG);
    assert!(matches!(p.handle(&pages, &button("hnav:-1")), Step::Fail(HelpError::OutOfRange)));
    let mut p = Pager::new(pages.len(), MSG);
    assert!(matches!(p.handle(&pages, &button("hnav:3")), Step::Fail(HelpError::OutOfRange)));
    let mut p = Pager::new(pages.len(), MSG);
    assert!(matches!(p.handle(&pages, &select(&["99999999999999999999999"])), Step::Fail(HelpError::OutOfRange)));
}

#[test]
fn malformed_identifiers_fail() {
    assert_eq!(decode_event(&button("hnav:abc"), 3), Err(HelpError::NotANumber));
    assert_eq!(decode_event(&button("hnav:"), 3), Err(HelpError::NotANumber));
    assert_eq!(decode_event(&button("other"), 3), Err(HelpError::UnknownControl));
    assert_eq!(decode_event(&select(&["x"]), 3), Err(HelpError::NotANumber));
    assert_eq!(decode_event(&button("hnav:+2"), 3), Ok(Nav::Goto(2)));
    assert_eq!(decode_event(&button(CANCEL_ID), 3), Ok(Nav::Cancel));
}

#[test]
fn single_page_has_both_buttons_disabled() {
    let pages = vec![page("Only", "")];
    let v = render_page(&pages, 0);
    assert!(v.previous_disabled);
    assert!(v.next_disabled);
    assert_eq!(v.title, "Only (Page 1)");
}

#[test]
fn every_edit_targets_the_first_message_until_close() {
    let pages = three_pages();
    let mut p = Pager::new(pages.len(), MSG);
    for id in ["hnav:1", "hnav:2", "hnav:0"] {
        match p.handle(&pages, &button(id)) {
            Step::Edit { target, .. } => assert_eq!(target, MSG),
            _ => panic!("expected an edit"),
        }
    }
    p.close();
    assert_eq!(p.phase, Phase::Closed);
    assert_eq!(p.index, 0);
    assert_eq!(p.message, MSG);
    assert!(p.is_finished());
}

#[test]
fn rendered_controls_lead_where_they_say() {
    let pages = three_pages();
    for index in 0..pages.len() {
        let v = render_page(&pages, index);
        for (i, o) in v.options.iter().enumerate() {
            assert_eq!(decode_event(&select(&[o.value.as_str()]), pages.len()), Ok(Nav::Goto(i)));
        }
        let next = decode_event(&button(&v.next_id), pages.len());
        let previous = decode_event(&button(&v.previous_id), pages.len());
        if index + 1 < pages.len() {
            assert_eq!(next, Ok(Nav::Goto(index + 1)));
        } else {
            assert_eq!(next, Err(HelpError::OutOfRange));
        }
        if index >= 1 {
            assert_eq!(previous, Ok(Nav::Goto(index - 1)));
        } else {
            assert_eq!(previous, Err(HelpError::OutOfRange));
        }
    }
}
