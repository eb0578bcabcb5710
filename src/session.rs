use vstd::prelude::*;
use crate::colors::{assign_colors, is_color_table_for};
use crate::layout::{layout, layout_of, PlacementRegion};
use crate::model::{keep_placeable, valid_entries, Color, TimeBlock};

verus! {

/// What the viewer is asked to do next.
#[derive(Clone, Copy, Debug, PartialEq, Eq, Structural)]
pub enum AppEvent {
    Quit,
    Refresh,
}

/// The key of a key press, as far as the viewer tells keys apart.
#[derive(Clone, Copy, Debug, PartialEq, Eq, Structural)]
pub enum Key {
    Char(char),
    Esc,
    Other,
}

/// A key event: `press` is false for a release or a repeat, and `control`
/// holds where Control is the one modifier held.
#[derive(Clone, Copy, Debug, PartialEq, Eq, Structural)]
pub struct KeyInput {
    pub press: bool,
    pub code: Key,
    pub control: bool,
}

/// A message shown over the grid until it is dismissed.
#[derive(Clone, Debug)]
pub struct Warning {
    pub title: String,
    pub message: String,
    pub bottom_hint: String,
    pub color: Color,
}

/// How a request for the timetable ended: with the decoded entries, with an
/// HTTP status that reports an error, or with any other failure (no answer,
/// a body that does not decode).
#[derive(Clone, Debug)]
pub enum FetchOutcome {
    Entries(Vec<TimeBlock>),
    Status(u16),
    Unreachable,
}

/// The state of the viewer: whether it runs, the entries of the last
/// successful refresh and their color table, the warning shown (if any), the
/// endpoint read from the configuration, and whether a request is under way.
pub struct App {
    pub running: bool,
    pub scroll_index: u8,
    pub timetable_data: Vec<TimeBlock>,
    pub colors: Vec<(String, Color)>,
    pub warning: Option<Warning>,
    pub config: Option<String>,
    pub fetching: bool,
}

/// The command that a key gives: `q` and Control-C quit, `r` refreshes.
pub open spec fn key_command(key: KeyInput) -> Option<AppEvent> {
    if !key.press {
        None
    } else {
        match key.code {
            Key::Char(c) => if c == 'q' || ((c == 'c' || c == 'C') && key.control) {
                Some(AppEvent::Quit)
            } else if c == 'r' {
                Some(AppEvent::Refresh)
            } else {
                None
            },
            _ => None,
        }
    }
}

/// Whether the key dismisses the warning: Escape, pressed while one is shown.
pub open spec fn key_dismisses(key: KeyInput, warning_shown: bool) -> bool {
    key.press && key.code == Key::Esc && warning_shown
}

/// The title of every warning.
pub open spec fn warning_title() -> Seq<char> {
    "Error"@
}

/// The hint at the foot of every warning.
pub open spec fn warning_hint() -> Seq<char> {
    "Press <Esc> to close the window"@
}

/// The message for a failed request: one for each of the statuses 429, 404
/// and 408, and a general one for any other failure.
pub open spec fn failure_message(status: Option<u16>) -> Seq<char> {
    match status {
        Some(code) => if code == 429 {
            "Too many requests..."@
        } else if code == 404 {
            "Page not found"@
        } else if code == 408 {
            "Request timed out..."@
        } else {
            "Host unreachable\nCheck if the config url works"@
        },
        None => "Host unreachable\nCheck if the config url works"@,
    }
}

/// The color of the warning for a failed request: yellow for too many
/// requests, red otherwise.
pub open spec fn failure_color(status: Option<u16>) -> Color {
    if status == Some(429u16) {
        Color::Yellow
    } else {
        Color::Red
    }
}

/// The message shown where no endpoint is configured: it names the file to
/// write it in (where that is known) and gives an example.
pub open spec fn missing_config_message(path: Seq<char>) -> Seq<char> {
    "Empty config file...\nAdd your api provider in:\n"@ + path
        + "\n\nExample:\nhttp://localhost:8080/timetable/fri/61310"@
}

/// The warning has the common title and hint, the message `message` and the
/// color `color`.
pub open spec fn is_warning(w: Warning, message: Seq<char>, color: Color) -> bool {
    w.title@ == warning_title() && w.bottom_hint@ == warning_hint() && w.message@ == message
        && w.color == color
}

/// A warning is shown, with message `message` and color `color`.
pub open spec fn shows(w: Option<Warning>, message: Seq<char>, color: Color) -> bool {
    match w {
        Some(w) => is_warning(w, message, color),
        None => false,
    }
}

/// A warning with the common title and hint.
fn make_warning(message: String, color: Color) -> (r: Warning)
    ensures
        is_warning(r, message@, color),
{
    Warning {
        title: String::from_str("Error"),
        message,
        bottom_hint: String::from_str("Press <Esc> to close the window"),
        color,
    }
}

/// The warning for a request that failed with the HTTP status `status`, or
/// (for `None`) in any other way.
pub fn failure_warning(status: Option<u16>) -> (r: Warning)
    ensures
        is_warning(r, failure_message(status), failure_color(status)),
{
    let (message, color) = match status {
        Some(429) => ("Too many requests...", Color::Yellow),
        Some(404) => ("Page not found", Color::Red),
        Some(408) => ("Request timed out...", Color::Red),
        _ => ("Host unreachable\nCheck if the config url works", Color::Red),
    };
    make_warning(String::from_str(message), color)
}

/// The warning for a missing configuration; `config_path` is the file that
/// should hold the endpoint, where it is known.
pub fn missing_config_warning(config_path: Option<String>) -> (r: Warning)
    ensures
        is_warning(
            r,
            missing_config_message(
                match config_path {
                    Some(p) => p@,
                    None => Seq::empty(),
                },
            ),
            Color::Red,
        ),
{
    let mut message = String::from_str("Empty config file...\nAdd your api provider in:\n");
    match &config_path {
        Some(p) => message.append(p.as_str()),
        None => {},
    }
    message.append("\n\nExample:\nhttp://localhost:8080/timetable/fri/61310");
    make_warning(message, Color::Red)
}

/// The character has the Unicode White_Space property.
pub open spec fn is_white_space(c: char) -> bool {
    let u = c as u32;
    (0x9 <= u <= 0xD) || u == 0x20 || u == 0x85 || u == 0xA0 || u == 0x1680 || (0x2000 <= u
        <= 0x200A) || u == 0x2028 || u == 0x2029 || u == 0x202F || u == 0x205F || u == 0x3000
}

/// The characters `s` without their leading and trailing white space.
pub open spec fn trim_white_space(s: Seq<char>) -> Seq<char>
    decreases s.len(),
{
    if s.len() == 0 {
        s
    } else if is_white_space(s[0]) {
        trim_white_space(s.drop_first())
    } else if is_white_space(s.last()) {
        trim_white_space(s.drop_last())
    } else {
        s
    }
}

/// Relies on str::trim: the text without the leading and trailing
/// characters that `char::is_whitespace` accepts, the White_Space ones.
#[verifier::external_body]
fn trim_text(s: &str) -> (r: String)
    ensures
        r@ == trim_white_space(s@),
{
    s.trim().to_string()
}

/// The endpoint that a configuration file gives: none where the file could
/// not be read, is empty or holds the placeholder `~~~~`; else its text,
/// trimmed.
pub open spec fn configured_endpoint(contents: Option<Seq<char>>) -> Option<Seq<char>> {
    match contents {
        Some(c) => if c.len() == 0 || c == "~~~~"@ {
            None
        } else {
            Some(trim_white_space(c))
        },
        None => None,
    }
}

/// The text of an optional string.
pub open spec fn opt_view(s: Option<String>) -> Option<Seq<char>> {
    match s {
        Some(t) => Some(t@),
        None => None,
    }
}

/// The viewer's state with warning `w` in place of its own.
pub open spec fn with_warning(a: App, w: Option<Warning>) -> App {
    App { warning: w, ..a }
}

impl Default for App {
    /// A running viewer with no entries, no colors, no warning and no
    /// configuration, that waits for its first refresh.
    fn default() -> (r: App)
        ensures
            r.running,
            r.scroll_index == 0,
            r.timetable_data@.len() == 0,
            r.colors@.len() == 0,
            r.warning is None,
            r.config is None,
            !r.fetching,
    {
        App {
            running: true,
            scroll_index: 0,
            timetable_data: Vec::new(),
            colors: Vec::new(),
            warning: None,
            config: None,
            fetching: false,
        }
    }
}

impl App {
    /// Does nothing: the viewer has no work to do at a fixed rate.
    pub fn tick(&self) {
    }

    /// Stops the viewer.
    pub fn quit(&mut self)
        ensures
            *final(self) == (App { running: false, ..*old(self) }),
    {
        self.running = false;
    }

    /// Reads the endpoint out of the configuration file's contents, `None`
    /// where the file could not be read.
    pub fn check_config(contents: Option<String>) -> (r: Option<String>)
        ensures
            opt_view(r) == configured_endpoint(opt_view(contents)),
    {
        match contents {
            Some(c) => {
                let placeholder = String::from_str("~~~~");
                if c.as_str().is_empty() || c == placeholder {
                    None
                } else {
                    Some(trim_text(c.as_str()))
                }
            },
            None => None,
        }
    }

    /// Handles a key: Escape dismisses the warning on screen, and the command
    /// that the key gives (if any) is returned for the event loop to run. A
    /// refresh asked for while a warning is shown leaves the warning until
    /// the refresh ends.
    pub fn handle_key_events(&mut self, key_event: KeyInput) -> (r: Option<AppEvent>)
        ensures
            r == key_command(key_event),
            *final(self) == if key_dismisses(key_event, old(self).warning is Some) {
                with_warning(*old(self), None)
            } else {
                *old(self)
            },
    {
        let shown = self.warning.is_some();
        if !key_event.press {
            return None;
        }
        match key_event.code {
            Key::Char(c) => {
                if c == 'q' || ((c == 'c' || c == 'C') && key_event.control) {
                    Some(AppEvent::Quit)
                } else if c == 'r' {
                    Some(AppEvent::Refresh)
                } else {
                    None
                }
            },
            Key::Esc => {
                if shown {
                    self.warning = None;
                }
                None
            },
            Key::Other => None,
        }
    }

    /// Starts a refresh with the endpoint read from the configuration
    /// (`config`, see `check_config`). While a request is under way nothing
    /// changes and `None` is returned. Else the endpoint is kept; where there
    /// is one, the viewer waits for its answer and the endpoint to request is
    /// returned; where there is none, the missing configuration is warned of
    /// (naming `config_path`, the file that should hold it) and nothing is to
    /// be requested.
    pub fn begin_refresh(&mut self, config: Option<String>, config_path: Option<String>) -> (r:
        Option<String>)
        ensures
            old(self).fetching ==> r is None && *final(self) == *old(self),
            !old(self).fetching ==> {
                &&& opt_view(r) == opt_view(config)
                &&& final(self).config == config
                &&& final(self).fetching == (config is Some)
                &&& final(self).running == old(self).running
                &&& final(self).scroll_index == old(self).scroll_index
                &&& final(self).timetable_data == old(self).timetable_data
                &&& final(self).colors == old(self).colors
                &&& config is Some ==> final(self).warning == old(self).warning
                &&& config is None ==> shows(
                    final(self).warning,
                    missing_config_message(
                        match config_path {
                            Some(p) => p@,
                            None => Seq::empty(),
                        },
                    ),
                    Color::Red,
                )
            },
    {
        if self.fetching {
            return None;
        }
        self.config = config.clone();
        match config {
            Some(url) => {
                self.fetching = true;
                Some(url)
            },
            None => {
                self.warning = Some(missing_config_warning(config_path));
                None
            },
        }
    }

    /// Ends a refresh with the outcome of the request. The valid ones among
    /// new entries replace the old entries, in their order, get a fresh color
    /// table and clear the warning; a failure
    /// shows its warning and keeps the entries and colors of the last
    /// successful refresh.
    pub fn finish_refresh(&mut self, outcome: FetchOutcome)
        ensures
            !final(self).fetching,
            final(self).running == old(self).running,
            final(self).scroll_index == old(self).scroll_index,
            final(self).config == old(self).config,
            match outcome {
                FetchOutcome::Entries(v) => {
                    &&& final(self).timetable_data@ == valid_entries(v@)
                    &&& is_color_table_for(valid_entries(v@), final(self).colors@)
                    &&& final(self).warning is None
                },
                FetchOutcome::Status(code) => {
                    &&& final(self).timetable_data == old(self).timetable_data
                    &&& final(self).colors == old(self).colors
                    &&& shows(
                        final(self).warning,
                        failure_message(Some(code)),
                        failure_color(Some(code)),
                    )
                },
                FetchOutcome::Unreachable => {
                    &&& final(self).timetable_data == old(self).timetable_data
                    &&& final(self).colors == old(self).colors
                    &&& shows(
                        final(self).warning,
                        failure_message(None),
                        failure_color(None),
                    )
                },
            },
    {
        self.fetching = false;
        match outcome {
            FetchOutcome::Entries(v) => {
                let valid = keep_placeable(v);
                self.colors = assign_colors(&valid);
                self.timetable_data = valid;
                self.warning = None;
            },
            FetchOutcome::Status(code) => {
                self.warning = Some(failure_warning(Some(code)));
            },
            FetchOutcome::Unreachable => {
                self.warning = Some(failure_warning(None));
            },
        }
    }

    /// The placement of the current entries in the grid.
    pub fn regions(&self) -> (r: Vec<PlacementRegion>)
        ensures
            r@ == layout_of(self.timetable_data@),
    {
        layout(&self.timetable_data)
    }
}

} // verus!
