use starling_server::setup::{Action, Key, Phase, ProfileDraft, SetupApp};

fn devices(names: &[&str]) -> Vec<String> {
    names.iter().map(|s| s.to_string()).collect()
}

fn wizard() -> SetupApp {
    let profile = ProfileDraft { name: "robin".into(), input_device: None, output_device: Some("old".into()) };
    SetupApp::new(
        profile,
        devices(&["System Default", "mic A", "mic B"]),
        devices(&["System Default", "speaker"]),
    )
}

fn type_text(app: &mut SetupApp, text: &str) {
    for c in text.chars() {
        assert_eq!(app.step(Key::Char(c)), Action::Continue);
    }
}

#[test]
fn wizard_starts_at_code_entry_with_saved_name() {
    let app = wizard();
    assert_eq!(app.phase(), Phase::CodeEntry);
    assert_eq!(app.name_input(), "robin");
    assert_eq!(app.code_input(), "");
    assert_eq!(app.selected_input(), 0);
    assert_eq!(app.selected_output(), 0);
    assert_eq!(app.input_devices().len(), 3);
    assert_eq!(app.output_devices().len(), 2);
}

#[test]
fn wizard_walks_through_every_step_and_saves() {
    let mut app = wizard();
    // An empty code skips loading.
    assert_eq!(app.step(Key::Enter), Action::Continue);
    assert_eq!(app.phase(), Phase::NameEntry);

    // An empty name does not advance.
    for _ in 0..5 {
        assert_eq!(app.step(Key::Backspace), Action::Continue);
    }
    assert_eq!(app.name_input(), "");
    assert_eq!(app.step(Key::Backspace), Action::Continue);
    assert_eq!(app.step(Key::Enter), Action::Continue);
    assert_eq!(app.phase(), Phase::NameEntry);

    type_text(&mut app, "wren");
    assert_eq!(app.step(Key::Enter), Action::Continue);
    assert_eq!(app.phase(), Phase::InputDevice);
    assert_eq!(app.profile().name, "wren");

    // The selection stays inside the list.
    assert_eq!(app.step(Key::Up), Action::Continue);
    assert_eq!(app.selected_input(), 0);
    app.step(Key::Down);
    app.step(Key::Down);
    app.step(Key::Down);
    assert_eq!(app.selected_input(), 2);
    app.step(Key::Up);
    assert_eq!(app.selected_input(), 1);
    assert_eq!(app.step(Key::Enter), Action::Continue);
    assert_eq!(app.phase(), Phase::OutputDevice);
    assert_eq!(app.profile().input_device.as_deref(), Some("mic A"));

    // Index 0 is the system default, which is stored as no device.
    assert_eq!(app.step(Key::Enter), Action::Continue);
    assert_eq!(app.phase(), Phase::Summary);
    assert_eq!(app.profile().output_device, None);

    assert_eq!(app.step(Key::Other), Action::Continue);
    assert_eq!(app.step(Key::Enter), Action::Save);
    assert_eq!(app.phase(), Phase::Summary);
}

#[test]
fn a_code_asks_for_loading_and_a_found_profile_replaces_the_draft() {
    let mut app = wizard();
    type_text(&mut app, "12x");
    app.step(Key::Backspace);
    assert_eq!(app.code_input(), "12");
    assert_eq!(app.step(Key::Enter), Action::LoadCode);
    assert_eq!(app.phase(), Phase::CodeEntry);

    let found = ProfileDraft { name: "starling".into(), input_device: Some("mic B".into()), output_device: None };
    app.code_loaded(Some(found));
    assert_eq!(app.phase(), Phase::NameEntry);
    assert_eq!(app.name_input(), "starling");
    assert_eq!(app.profile().name, "starling");
    assert_eq!(app.profile().input_device.as_deref(), Some("mic B"));
}

#[test]
fn an_unknown_code_keeps_the_draft() {
    let mut app = wizard();
    type_text(&mut app, "0000");
    assert_eq!(app.step(Key::Enter), Action::LoadCode);
    app.code_loaded(None);
    assert_eq!(app.phase(), Phase::NameEntry);
    assert_eq!(app.name_input(), "robin");
    assert_eq!(app.profile().output_device.as_deref(), Some("old"));
}

#[test]
fn escape_cancels_at_every_step() {
    let mut app = wizard();
    assert_eq!(app.step(Key::Esc), Action::Cancel);
    app.step(Key::Enter);
    assert_eq!(app.step(Key::Esc), Action::Cancel);
    app.step(Key::Enter);
    assert_eq!(app.phase(), Phase::InputDevice);
    assert_eq!(app.step(Key::Esc), Action::Cancel);
    app.step(Key::Enter);
    assert_eq!(app.step(Key::Esc), Action::Cancel);
    app.step(Key::Enter);
    assert_eq!(app.phase(), Phase::Summary);
    assert_eq!(app.step(Key::Esc), Action::Cancel);
}
