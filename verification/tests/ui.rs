use starling_server::ui::{
    invite_code_break, invite_popup_area, parse_color_code, short_id, status_text, App, Area,
};

fn peer_id(seed: u8) -> [u8; 32] {
    *iroh_base::SecretKey::from_bytes(&[seed; 32]).public().as_bytes()
}

#[test]
fn color_code_reads_six_digit_groups() {
    assert_eq!(
        parse_color_code("BIRD-ff8800-00a0FF-123"),
        vec![(0xff, 0x88, 0x00), (0x00, 0xa0, 0xff)]
    );
    assert_eq!(parse_color_code(""), vec![]);
    assert_eq!(parse_color_code("BIRD"), vec![]);
    // A group that is not hex is skipped; the others keep their order.
    assert_eq!(parse_color_code("zz0000-010203-"), vec![(1, 2, 3)]);
    // `from_str_radix` accepts a leading `+` on a two-digit pair.
    assert_eq!(parse_color_code("+f+1+0"), vec![(15, 1, 0)]);
    assert_eq!(parse_color_code("-0a0b0c-"), vec![(10, 11, 12)]);
    assert_eq!(parse_color_code("0a0b0c0d"), vec![]);
}

#[test]
fn short_id_matches_fmt_short() {
    for seed in [1u8, 7, 200] {
        let id = peer_id(seed);
        let expected = iroh_base::PublicKey::from_bytes(&id).unwrap().fmt_short().to_string();
        assert_eq!(short_id(&id), expected);
    }
    let mut id = [0u8; 32];
    id[0] = 0xab;
    id[4] = 0x0f;
    id[5] = 0xff;
    assert_eq!(short_id(&id), "ab0000000f");
}

#[test]
fn display_name_prefers_the_first_announced_name() {
    let a = peer_id(1);
    let b = peer_id(2);
    let mut app = App::new();
    assert_eq!(app.peer_display_name(&a), short_id(&a));
    app.peer_names.push((a, "ann".into()));
    app.peer_names.push((a, "later".into()));
    assert_eq!(app.peer_display_name(&a), "ann");
    assert_eq!(app.peer_display_name(&b), short_id(&b));
}

#[test]
fn peer_selection_wraps_around() {
    let mut app = App::new();
    assert_eq!(app.bird_count(), 1);
    assert_eq!(app.selected_peer_addr(), None);
    app.select_next_peer();
    assert_eq!(app.selected_peer, 0);

    app.peers = vec![peer_id(1), peer_id(2), peer_id(3)];
    assert_eq!(app.bird_count(), 4);
    assert_eq!(app.selected_peer_addr(), Some(peer_id(1)));
    app.select_next_peer();
    app.select_next_peer();
    assert_eq!(app.selected_peer_addr(), Some(peer_id(3)));
    app.select_next_peer();
    assert_eq!(app.selected_peer, 0);

    app.selected_peer = 9;
    assert_eq!(app.selected_peer_addr(), None);
}

#[test]
fn status_line_text() {
    assert_eq!(status_text(true, true), " in call . muted . Ctrl+K to hang up");
    assert_eq!(status_text(true, false), " in call . live . Ctrl+K to hang up");
    assert_eq!(
        status_text(false, true),
        " idle . Ctrl+K to call . Tab to cycle . Ctrl+M to mute . i = invite"
    );
}

#[test]
fn invite_popup_is_centred_and_capped() {
    let screen = Area { x: 0, y: 0, width: 100, height: 30 };
    // At least 40 columns of content plus 4.
    assert_eq!(invite_popup_area(screen, 2, 10), Area { x: 28, y: 9, width: 44, height: 12 });
    // The code is wider than the swatches.
    assert_eq!(invite_popup_area(screen, 5, 60), Area { x: 18, y: 9, width: 64, height: 12 });
    // The swatches are wider than the code.
    assert_eq!(invite_popup_area(screen, 20, 30), Area { x: 18, y: 9, width: 64, height: 12 });
    // A small terminal caps both sides.
    let small = Area { x: 3, y: 2, width: 30, height: 8 };
    assert_eq!(invite_popup_area(small, 2, 10), Area { x: 3, y: 2, width: 30, height: 8 });
}

#[test]
fn long_codes_break_at_a_dash_after_the_middle() {
    let short = "BIRD-aaaaaa-bbbbbb";
    assert_eq!(invite_code_break(short), short.len());
    let code = "BIRD-000000-111111-222222-333333-444444-555555-666666";
    let at = invite_code_break(code);
    assert_eq!(at, 32);
    assert_eq!(&code[at..at + 1], "-");
    assert!(at >= code.len() / 2);
    let no_dash = "a".repeat(50);
    assert_eq!(invite_code_break(&no_dash), 25);
}

#[test]
fn a_new_name_replaces_the_old_one() {
    let a = peer_id(1);
    let b = peer_id(2);
    let mut app = App::new();
    app.set_peer_name(a, "ann".into());
    app.set_peer_name(b, "bob".into());
    app.set_peer_name(a, "anna".into());
    assert_eq!(app.peer_names.len(), 2);
    assert_eq!(app.peer_display_name(&a), "anna");
    assert_eq!(app.peer_display_name(&b), "bob");
}
