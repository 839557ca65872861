//! The setup wizard's decisions: a state machine from key presses to the next
//! state and the action for the terminal loop to perform.
//!
//! The wizard walks through five phases: load a profile from a code, enter a
//! display name, pick the input device, pick the output device, and review.
//! Device index 0 is the system default.

use vstd::prelude::*;

use crate::text::{pop_char, push_char};

verus! {

/// Which step of the wizard is showing.
#[derive(Clone, Copy, Debug, PartialEq, Eq, Structural)]
pub enum Phase {
    CodeEntry,
    NameEntry,
    InputDevice,
    OutputDevice,
    Summary,
}

/// A key press, as far as the wizard tells keys apart.
#[derive(Clone, Copy, Debug, PartialEq, Eq, Structural)]
pub enum Key {
    Enter,
    Char(char),
    Backspace,
    Esc,
    Up,
    Down,
    Other,
}

/// What the terminal loop does after a key press.
#[derive(Clone, Copy, Debug, PartialEq, Eq, Structural)]
pub enum Action {
    /// Keep drawing and reading keys.
    Continue,
    /// Load the profile for the entered code and report it with
    /// `SetupApp::code_loaded`.
    LoadCode,
    /// Save the profile and return it.
    Save,
    /// Return without saving.
    Cancel,
}

/// The profile fields that the wizard edits.
#[derive(Clone, Debug)]
pub struct ProfileDraft {
    pub name: String,
    pub input_device: Option<String>,
    pub output_device: Option<String>,
}

/// The wizard's state, by the views of its fields.
pub struct SetupView {
    pub phase: Phase,
    pub name: Seq<char>,
    pub input_device: Option<Seq<char>>,
    pub output_device: Option<Seq<char>>,
    pub name_input: Seq<char>,
    pub code_input: Seq<char>,
    pub input_devices: Seq<Seq<char>>,
    pub output_devices: Seq<Seq<char>>,
    pub selected_input: nat,
    pub selected_output: nat,
}

/// The view of an optional string.
pub open spec fn opt_view(o: Option<String>) -> Option<Seq<char>> {
    match o {
        Some(s) => Some(s@),
        None => None,
    }
}

/// The views of a list of strings.
pub open spec fn names_view(s: Seq<String>) -> Seq<Seq<char>> {
    s.map_values(|x: String| x@)
}

/// `s` without its last character, if it has one.
pub open spec fn backspace(s: Seq<char>) -> Seq<char> {
    if s.len() > 0 {
        s.drop_last()
    } else {
        s
    }
}

/// The device chosen at `selected`: `None` for the system default.
pub open spec fn chosen(devices: Seq<Seq<char>>, selected: nat) -> Option<Seq<char>> {
    if selected == 0 {
        None
    } else {
        Some(devices[selected as int])
    }
}

/// One step of the wizard: the state after `key` and what to do next.
pub open spec fn step_spec(s: SetupView, key: Key) -> (SetupView, Action) {
    match s.phase {
        Phase::CodeEntry => match key {
            Key::Enter => if s.code_input.len() > 0 {
                (s, Action::LoadCode)
            } else {
                (SetupView { phase: Phase::NameEntry, ..s }, Action::Continue)
            },
            Key::Char(c) => (SetupView { code_input: s.code_input.push(c), ..s }, Action::Continue),
            Key::Backspace => (
                SetupView { code_input: backspace(s.code_input), ..s },
                Action::Continue,
            ),
            Key::Esc => (s, Action::Cancel),
            _ => (s, Action::Continue),
        },
        Phase::NameEntry => match key {
            Key::Enter => if s.name_input.len() > 0 {
                (
                    SetupView { name: s.name_input, phase: Phase::InputDevice, ..s },
                    Action::Continue,
                )
            } else {
                (s, Action::Continue)
            },
            Key::Char(c) => (SetupView { name_input: s.name_input.push(c), ..s }, Action::Continue),
            Key::Backspace => (
                SetupView { name_input: backspace(s.name_input), ..s },
                Action::Continue,
            ),
            Key::Esc => (s, Action::Cancel),
            _ => (s, Action::Continue),
        },
        Phase::InputDevice => match key {
            Key::Enter => (
                SetupView {
                    input_device: chosen(s.input_devices, s.selected_input),
                    phase: Phase::OutputDevice,
                    ..s
                },
                Action::Continue,
            ),
            Key::Up => (
                SetupView {
                    selected_input: if s.selected_input > 0 {
                        (s.selected_input - 1) as nat
                    } else {
                        s.selected_input
                    },
                    ..s
                },
                Action::Continue,
            ),
            Key::Down => (
                SetupView {
                    selected_input: if s.selected_input + 1 < s.input_devices.len() {
                        s.selected_input + 1
                    } else {
                        s.selected_input
                    },
                    ..s
                },
                Action::Continue,
            ),
            Key::Esc => (s, Action::Cancel),
            _ => (s, Action::Continue),
        },
        Phase::OutputDevice => match key {
            Key::Enter => (
                SetupView {
                    output_device: chosen(s.output_devices, s.selected_output),
                    phase: Phase::Summary,
                    ..s
                },
                Action::Continue,
            ),
            Key::Up => (
                SetupView {
                    selected_output: if s.selected_output > 0 {
                        (s.selected_output - 1) as nat
                    } else {
                        s.selected_output
                    },
                    ..s
                },
                Action::Continue,
            ),
            Key::Down => (
                SetupView {
                    selected_output: if s.selected_output + 1 < s.output_devices.len() {
                        s.selected_output + 1
                    } else {
                        s.selected_output
                    },
                    ..s
                },
                Action::Continue,
            ),
            Key::Esc => (s, Action::Cancel),
            _ => (s, Action::Continue),
        },
        Phase::Summary => match key {
            Key::Enter => (s, Action::Save),
            Key::Esc => (s, Action::Cancel),
            _ => (s, Action::Continue),
        },
    }
}

/// At a device step, Down highlights the next device when there is one and
/// Up the previous one, never leaving the list; Enter then stores the
/// highlighted device (the first entry, the system default, as none) and
/// moves on. So Down then Enter picks the device after the highlighted one.
pub proof fn law_device_steps(s: SetupView)
    ensures
        s.phase == Phase::InputDevice ==> {
            let down = step_spec(s, Key::Down);
            let up = step_spec(s, Key::Up);
            &&& down.1 == Action::Continue && up.1 == Action::Continue
            &&& down.0.phase == Phase::InputDevice && up.0.phase == Phase::InputDevice
            &&& down.0.selected_input == (if s.selected_input + 1 < s.input_devices.len() {
                (s.selected_input + 1) as int
            } else {
                s.selected_input as int
            })
            &&& up.0.selected_input == (if s.selected_input > 0 {
                s.selected_input - 1
            } else {
                0int
            })
            &&& s.selected_input + 1 < s.input_devices.len() ==> step_spec(down.0, Key::Enter).0.input_device
                == Some(s.input_devices[(s.selected_input + 1) as int]) && step_spec(down.0, Key::Enter).0.phase
                == Phase::OutputDevice
            &&& step_spec(s, Key::Enter).0.input_device == (if s.selected_input == 0 {
                None
            } else {
                Some(s.input_devices[s.selected_input as int])
            })
        },
        s.phase == Phase::OutputDevice ==> {
            let down = step_spec(s, Key::Down);
            let up = step_spec(s, Key::Up);
            &&& down.1 == Action::Continue && up.1 == Action::Continue
            &&& down.0.phase == Phase::OutputDevice && up.0.phase == Phase::OutputDevice
            &&& down.0.selected_output == (if s.selected_output + 1 < s.output_devices.len() {
                (s.selected_output + 1) as int
            } else {
                s.selected_output as int
            })
            &&& up.0.selected_output == (if s.selected_output > 0 {
                s.selected_output - 1
            } else {
                0int
            })
            &&& s.selected_output + 1 < s.output_devices.len() ==> step_spec(down.0, Key::Enter).0.output_device
                == Some(s.output_devices[(s.selected_output + 1) as int]) && step_spec(down.0, Key::Enter).0.phase
                == Phase::Summary
            &&& step_spec(s, Key::Enter).0.output_device == (if s.selected_output == 0 {
                None
            } else {
                Some(s.output_devices[s.selected_output as int])
            })
        },
{
}

/// The setup wizard's state.
pub struct SetupApp {
    phase: Phase,
    profile: ProfileDraft,
    name_input: String,
    code_input: String,
    input_devices: Vec<String>,
    output_devices: Vec<String>,
    selected_input: usize,
    selected_output: usize,
}

impl View for SetupApp {
    type V = SetupView;

    closed spec fn view(&self) -> SetupView {
        SetupView {
            phase: self.phase,
            name: self.profile.name@,
            input_device: opt_view(self.profile.input_device),
            output_device: opt_view(self.profile.output_device),
            name_input: self.name_input@,
            code_input: self.code_input@,
            input_devices: names_view(self.input_devices@),
            output_devices: names_view(self.output_devices@),
            selected_input: self.selected_input as nat,
            selected_output: self.selected_output as nat,
        }
    }
}

impl SetupApp {
    /// The selections point into their device lists (or at the default).
    pub closed spec fn wf(&self) -> bool {
        &&& (self.selected_input == 0 || self.selected_input < self.input_devices@.len())
        &&& (self.selected_output == 0 || self.selected_output < self.output_devices@.len())
    }

    /// A wizard at the code step, with the saved profile's name filled in and
    /// both devices at the system default entry.
    pub fn new(profile: ProfileDraft, input_devices: Vec<String>, output_devices: Vec<String>) -> (r: SetupApp)
        ensures
            r.wf(),
            r@.phase == Phase::CodeEntry,
            r@.name == profile.name@,
            r@.input_device == opt_view(profile.input_device),
            r@.output_device == opt_view(profile.output_device),
            r@.name_input == profile.name@,
            r@.code_input == Seq::<char>::empty(),
            r@.input_devices == names_view(input_devices@),
            r@.output_devices == names_view(output_devices@),
            r@.selected_input == 0,
            r@.selected_output == 0,
    {
        let name_input = profile.name.clone();
        SetupApp {
            phase: Phase::CodeEntry,
            profile,
            name_input,
            code_input: String::new(),
            input_devices,
            output_devices,
            selected_input: 0,
            selected_output: 0,
        }
    }

    /// Handles one key press.
    pub fn step(&mut self, key: Key) -> (r: Action)
        requires
            old(self).wf(),
        ensures
            final(self).wf(),
            (final(self)@, r) == step_spec(old(self)@, key),
    {
        match self.phase {
            Phase::CodeEntry => match key {
                Key::Enter => {
                    if !self.code_input.as_str().is_empty() {
                        Action::LoadCode
                    } else {
                        self.phase = Phase::NameEntry;
                        Action::Continue
                    }
                },
                Key::Char(c) => {
                    push_char(&mut self.code_input, c);
                    Action::Continue
                },
                Key::Backspace => {
                    pop_char(&mut self.code_input);
                    Action::Continue
                },
                Key::Esc => Action::Cancel,
                _ => Action::Continue,
            },
            Phase::NameEntry => match key {
                Key::Enter => {
                    if !self.name_input.as_str().is_empty() {
                        self.profile.name = self.name_input.clone();
                        self.phase = Phase::InputDevice;
                    }
                    Action::Continue
                },
                Key::Char(c) => {
                    push_char(&mut self.name_input, c);
                    Action::Continue
                },
                Key::Backspace => {
                    pop_char(&mut self.name_input);
                    Action::Continue
                },
                Key::Esc => Action::Cancel,
                _ => Action::Continue,
            },
            Phase::InputDevice => match key {
                Key::Enter => {
                    self.profile.input_device = if self.selected_input == 0 {
                        None
                    } else {
                        Some(self.input_devices[self.selected_input].clone())
                    };
                    self.phase = Phase::OutputDevice;
                    Action::Continue
                },
                Key::Up => {
                    if self.selected_input > 0 {
                        self.selected_input = self.selected_input - 1;
                    }
                    Action::Continue
                },
                Key::Down => {
                    if self.input_devices.len() > 0 && self.selected_input < self.input_devices.len() - 1 {
                        self.selected_input = self.selected_input + 1;
                    }
                    Action::Continue
                },
                Key::Esc => Action::Cancel,
                _ => Action::Continue,
            },
            Phase::OutputDevice => match key {
                Key::Enter => {
                    self.profile.output_device = if self.selected_output == 0 {
                        None
                    } else {
                        Some(self.output_devices[self.selected_output].clone())
                    };
                    self.phase = Phase::Summary;
                    Action::Continue
                },
                Key::Up => {
                    if self.selected_output > 0 {
                        self.selected_output = self.selected_output - 1;
                    }
                    Action::Continue
                },
                Key::Down => {
                    if self.output_devices.len() > 0 && self.selected_output < self.output_devices.len() - 1 {
                        self.selected_output = self.selected_output + 1;
                    }
                    Action::Continue
                },
                Key::Esc => Action::Cancel,
                _ => Action::Continue,
            },
            Phase::Summary => match key {
                Key::Enter => Action::Save,
                Key::Esc => Action::Cancel,
                _ => Action::Continue,
            },
        }
    }

    /// Reports the profile loaded for the entered code (after
    /// `Action::LoadCode`): a profile that was found replaces the draft and
    /// its name fills the name field; either way the name step follows.
    pub fn code_loaded(&mut self, loaded: Option<ProfileDraft>)
        requires
            old(self).wf(),
        ensures
            final(self).wf(),
            final(self)@ == (match loaded {
                Some(p) => SetupView {
                    phase: Phase::NameEntry,
                    name: p.name@,
                    input_device: opt_view(p.input_device),
                    output_device: opt_view(p.output_device),
                    name_input: p.name@,
                    ..old(self)@
                },
                None => SetupView { phase: Phase::NameEntry, ..old(self)@ },
            }),
    {
        match loaded {
            Some(p) => {
                self.name_input = p.name.clone();
                self.profile = p;
            },
            None => {},
        }
        self.phase = Phase::NameEntry;
    }

    /// The step that is showing.
    pub fn phase(&self) -> (r: Phase)
        ensures
            r == self@.phase,
    {
        self.phase
    }

    /// The profile as edited so far.
    pub fn profile(&self) -> (r: &ProfileDraft)
        ensures
            r.name@ == self@.name,
            opt_view(r.input_device) == self@.input_device,
            opt_view(r.output_device) == self@.output_device,
    {
        &self.profile
    }

    /// The name being typed.
    pub fn name_input(&self) -> (r: &String)
        ensures
            r@ == self@.name_input,
    {
        &self.name_input
    }

    /// The code being typed.
    pub fn code_input(&self) -> (r: &String)
        ensures
            r@ == self@.code_input,
    {
        &self.code_input
    }

    /// The input devices to pick from.
    pub fn input_devices(&self) -> (r: &Vec<String>)
        ensures
            names_view(r@) == self@.input_devices,
    {
        &self.input_devices
    }

    /// The output devices to pick from.
    pub fn output_devices(&self) -> (r: &Vec<String>)
        ensures
            names_view(r@) == self@.output_devices,
    {
        &self.output_devices
    }

    /// The highlighted input device.
    pub fn selected_input(&self) -> (r: usize)
        ensures
            r == self@.selected_input,
    {
        self.selected_input
    }

    /// The highlighted output device.
    pub fn selected_output(&self) -> (r: usize)
        ensures
            r == self@.selected_output,
    {
        self.selected_output
    }
}

} // verus!
