//! Rendering of terminal output as inert HTML.
//!
//! The byte stream is tokenised by `vte` into printable characters, C0
//! controls and CSI sequences; everything else (OSC hyperlinks, DCS strings,
//! plain escapes) is dropped. Printable text is HTML-escaped and the SGR codes
//! this module knows become `<span class="ansi-…">` wrappers.
use vstd::prelude::*;
use vstd::string::*;

use crate::text::push_char;

verus! {

/// One event reported by the terminal tokenizer.
pub enum TermEvent {
    /// A printable character.
    Print(char),
    /// A C0 or C1 control byte.
    Execute(u8),
    /// A CSI sequence: its parameter groups, whether the parser flagged it as
    /// malformed, and its final character.
    Csi { params: Vec<Vec<u16>>, ignore: bool, action: char },
}

/// The mathematical form of a [`TermEvent`].
pub enum TermEventView {
    Print(char),
    Execute(u8),
    Csi { params: Seq<Seq<u16>>, ignore: bool, action: char },
}

impl DeepView for TermEvent {
    type V = TermEventView;

    open spec fn deep_view(&self) -> TermEventView {
        match self {
            TermEvent::Print(c) => TermEventView::Print(*c),
            TermEvent::Execute(b) => TermEventView::Execute(*b),
            TermEvent::Csi { params, ignore, action } => TermEventView::Csi {
                params: params.deep_view(),
                ignore: *ignore,
                action: *action,
            },
        }
    }
}

/// The events that `vte::Parser`, fresh, reports for `bytes`.
pub uninterp spec fn vt_events(bytes: Seq<u8>) -> Seq<TermEventView>;

/// Records the tokenizer's callbacks as [`TermEvent`]s.
pub struct EventRecorder {
    pub events: Vec<TermEvent>,
}

impl vte::Perform for EventRecorder {
    /// Records a printable character.
    fn print(&mut self, c: char)
        ensures
            final(self).events@ == old(self).events@.push(TermEvent::Print(c)),
    {
        self.events.push(TermEvent::Print(c));
    }

    /// Records a control byte.
    fn execute(&mut self, byte: u8)
        ensures
            final(self).events@ == old(self).events@.push(TermEvent::Execute(byte)),
    {
        self.events.push(TermEvent::Execute(byte));
    }

    /// Records a CSI sequence with its flag and final character; its
    /// parameter groups are copied out of the parser (`csi_param_groups`).
    fn csi_dispatch(&mut self, params: &vte::Params, _intermediates: &[u8], ignore: bool, action: char)
        ensures
            final(self).events@.len() == old(self).events@.len() + 1,
            final(self).events@.drop_last() == old(self).events@,
            final(self).events@.last() matches TermEvent::Csi { ignore: i, action: a, .. } && i == ignore && a
                == action,
    {
        let params = csi_param_groups(params);
        self.events.push(TermEvent::Csi { params, ignore, action });
    }
}

/// Declares `vte::Params`, the parameter list of a CSI sequence.
#[verifier::external_type_specification]
#[verifier::external_body]
pub struct ExParams(vte::Params);

/// `vte::Params::iter`: each parameter group (a parameter and its
/// sub-parameters), in order, copied out of the parser's buffer.
#[verifier::external_body]
fn csi_param_groups(params: &vte::Params) -> Vec<Vec<u16>> {
    params.iter().map(|group| group.to_vec()).collect()
}

/// A C0 or C1 control character (ESC among them).
pub open spec fn is_control(c: char) -> bool {
    c <= '\x1f' || ('\u{80}' <= c && c <= '\u{9f}')
}

/// No event prints a control character.
pub open spec fn prints_no_controls(events: Seq<TermEventView>) -> bool {
    forall|i: int| 0 <= i < events.len() ==> (#[trigger] events[i] matches TermEventView::Print(c) ==> !is_control(c))
}

/// Runs `vte::Parser::advance` on `bytes` with a fresh parser and returns
/// the callbacks it made, in order. The contract names the result (what
/// the parser reports for these bytes) and states one fact of vte's
/// source: a fresh parser prints only characters outside the C0 and C1
/// control ranges (those it reports through `execute`, ESC starts a
/// sequence, and an invalid byte prints `U+FFFD`). What becomes of the
/// bytes inside escape sequences (OSC strings, for one) is left to the
/// name.
#[verifier::external_body]
fn tokenize(bytes: &[u8]) -> (events: Vec<TermEvent>)
    ensures
        events.deep_view() == vt_events(bytes@),
        prints_no_controls(events.deep_view()),
{
    let mut parser = vte::Parser::new();
    let mut recorder = EventRecorder { events: Vec::new() };
    parser.advance(&mut recorder, bytes);
    recorder.events
}

/// The styles an SGR code can select.
#[derive(Clone, Copy, Debug, PartialEq, Eq, Structural)]
pub enum SgrClass {
    Bold,
    Dim,
    Italic,
    Underline,
    FgBlack,
    FgRed,
    FgGreen,
    FgYellow,
    FgBlue,
    FgMagenta,
    FgCyan,
    FgWhite,
    FgBrightBlack,
    FgBrightRed,
    FgBrightGreen,
    FgBrightYellow,
    FgBrightBlue,
    FgBrightMagenta,
    FgBrightCyan,
    FgBrightWhite,
}

/// The CSS class name of a style.
pub open spec fn class_name(c: SgrClass) -> Seq<char> {
    match c {
        SgrClass::Bold => "ansi-bold"@,
        SgrClass::Dim => "ansi-dim"@,
        SgrClass::Italic => "ansi-italic"@,
        SgrClass::Underline => "ansi-underline"@,
        SgrClass::FgBlack => "ansi-fg-black"@,
        SgrClass::FgRed => "ansi-fg-red"@,
        SgrClass::FgGreen => "ansi-fg-green"@,
        SgrClass::FgYellow => "ansi-fg-yellow"@,
        SgrClass::FgBlue => "ansi-fg-blue"@,
        SgrClass::FgMagenta => "ansi-fg-magenta"@,
        SgrClass::FgCyan => "ansi-fg-cyan"@,
        SgrClass::FgWhite => "ansi-fg-white"@,
        SgrClass::FgBrightBlack => "ansi-fg-bright-black"@,
        SgrClass::FgBrightRed => "ansi-fg-bright-red"@,
        SgrClass::FgBrightGreen => "ansi-fg-bright-green"@,
        SgrClass::FgBrightYellow => "ansi-fg-bright-yellow"@,
        SgrClass::FgBrightBlue => "ansi-fg-bright-blue"@,
        SgrClass::FgBrightMagenta => "ansi-fg-bright-magenta"@,
        SgrClass::FgBrightCyan => "ansi-fg-bright-cyan"@,
        SgrClass::FgBrightWhite => "ansi-fg-bright-white"@,
    }
}

/// What an SGR code does: `Some(None)` resets the style, `Some(Some(c))`
/// selects style `c`, `None` leaves the style as it is (unsupported code).
pub open spec fn sgr_effect(code: u16) -> Option<Option<SgrClass>> {
    if code == 0 { Some(None) }
    else if code == 1 { Some(Some(SgrClass::Bold)) }
    else if code == 2 { Some(Some(SgrClass::Dim)) }
    else if code == 3 { Some(Some(SgrClass::Italic)) }
    else if code == 4 { Some(Some(SgrClass::Underline)) }
    else if code == 30 { Some(Some(SgrClass::FgBlack)) }
    else if code == 31 { Some(Some(SgrClass::FgRed)) }
    else if code == 32 { Some(Some(SgrClass::FgGreen)) }
    else if code == 33 { Some(Some(SgrClass::FgYellow)) }
    else if code == 34 { Some(Some(SgrClass::FgBlue)) }
    else if code == 35 { Some(Some(SgrClass::FgMagenta)) }
    else if code == 36 { Some(Some(SgrClass::FgCyan)) }
    else if code == 37 { Some(Some(SgrClass::FgWhite)) }
    else if code == 90 { Some(Some(SgrClass::FgBrightBlack)) }
    else if code == 91 { Some(Some(SgrClass::FgBrightRed)) }
    else if code == 92 { Some(Some(SgrClass::FgBrightGreen)) }
    else if code == 93 { Some(Some(SgrClass::FgBrightYellow)) }
    else if code == 94 { Some(Some(SgrClass::FgBrightBlue)) }
    else if code == 95 { Some(Some(SgrClass::FgBrightMagenta)) }
    else if code == 96 { Some(Some(SgrClass::FgBrightCyan)) }
    else if code == 97 { Some(Some(SgrClass::FgBrightWhite)) }
    else { None }
}

/// HTML text emitted so far and the style whose `<span>` is open.
pub struct RenderState {
    pub out: Seq<char>,
    pub active: Option<SgrClass>,
}

/// The HTML escape of one printable character.
pub open spec fn escape_char(c: char) -> Seq<char> {
    if c == '&' { "&amp;"@ }
    else if c == '<' { "&lt;"@ }
    else if c == '>' { "&gt;"@ }
    else if c == '"' { "&quot;"@ }
    else if c == '\'' { "&#39;"@ }
    else { seq![c] }
}

/// The opening tag of a style's span.
pub open spec fn open_tag(c: SgrClass) -> Seq<char> {
    "<span class=\""@ + class_name(c) + "\">"@
}

/// Closes the open span, if any.
pub open spec fn close_span(s: RenderState) -> RenderState {
    match s.active {
        Some(_) => RenderState { out: s.out + "</span>"@, active: None },
        None => s,
    }
}

/// Switches to `class`: nothing when it is already active, otherwise the
/// open span is closed and, for a style, a new one is opened.
pub open spec fn set_class(s: RenderState, class: Option<SgrClass>) -> RenderState {
    if s.active == class {
        s
    } else {
        let closed = close_span(s);
        match class {
            Some(c) => RenderState { out: closed.out + open_tag(c), active: Some(c) },
            None => closed,
        }
    }
}

/// The code of a parameter group: its first value, 0 when it is empty.
pub open spec fn group_code(group: Seq<u16>) -> u16 {
    if group.len() > 0 { group[0] } else { 0 }
}

/// Applies the parameter groups of an SGR sequence, left to right.
pub open spec fn apply_groups(s: RenderState, groups: Seq<Seq<u16>>) -> RenderState
    decreases groups.len(),
{
    if groups.len() == 0 {
        s
    } else {
        let before = apply_groups(s, groups.drop_last());
        match sgr_effect(group_code(groups.last())) {
            Some(class) => set_class(before, class),
            None => before,
        }
    }
}

/// An SGR sequence: without parameters it resets the style.
pub open spec fn apply_sgr(s: RenderState, groups: Seq<Seq<u16>>) -> RenderState {
    if groups.len() == 0 {
        set_class(s, None)
    } else {
        apply_groups(s, groups)
    }
}

/// The effect of one tokenizer event.
pub open spec fn render_step(s: RenderState, e: TermEventView) -> RenderState {
    match e {
        TermEventView::Print(c) => RenderState { out: s.out + escape_char(c), active: s.active },
        TermEventView::Execute(b) => if b == 9 {
            RenderState { out: s.out + "    "@, active: s.active }
        } else {
            s
        },
        TermEventView::Csi { params, ignore, action } => if !ignore && action == 'm' {
            apply_sgr(s, params)
        } else {
            s
        },
    }
}

/// The state after a sequence of events, from an empty document.
pub open spec fn render_state(events: Seq<TermEventView>) -> RenderState
    decreases events.len(),
{
    if events.len() == 0 {
        RenderState { out: Seq::empty(), active: None }
    } else {
        render_step(render_state(events.drop_last()), events.last())
    }
}

/// The HTML for a sequence of events: the rendered text with any open span
/// closed at the end.
pub open spec fn render_html(events: Seq<TermEventView>) -> Seq<char> {
    close_span(render_state(events)).out
}

/// The HTML for a chunk of terminal output.
pub open spec fn sanitize_html(bytes: Seq<u8>) -> Seq<char> {
    render_html(vt_events(bytes))
}

fn class_text(c: SgrClass) -> (s: &'static str)
    ensures
        s@ == class_name(c),
{
    match c {
        SgrClass::Bold => "ansi-bold",
        SgrClass::Dim => "ansi-dim",
        SgrClass::Italic => "ansi-italic",
        SgrClass::Underline => "ansi-underline",
        SgrClass::FgBlack => "ansi-fg-black",
        SgrClass::FgRed => "ansi-fg-red",
        SgrClass::FgGreen => "ansi-fg-green",
        SgrClass::FgYellow => "ansi-fg-yellow",
        SgrClass::FgBlue => "ansi-fg-blue",
        SgrClass::FgMagenta => "ansi-fg-magenta",
        SgrClass::FgCyan => "ansi-fg-cyan",
        SgrClass::FgWhite => "ansi-fg-white",
        SgrClass::FgBrightBlack => "ansi-fg-bright-black",
        SgrClass::FgBrightRed => "ansi-fg-bright-red",
        SgrClass::FgBrightGreen => "ansi-fg-bright-green",
        SgrClass::FgBrightYellow => "ansi-fg-bright-yellow",
        SgrClass::FgBrightBlue => "ansi-fg-bright-blue",
        SgrClass::FgBrightMagenta => "ansi-fg-bright-magenta",
        SgrClass::FgBrightCyan => "ansi-fg-bright-cyan",
        SgrClass::FgBrightWhite => "ansi-fg-bright-white",
    }
}

fn sgr_effect_of(code: u16) -> (r: Option<Option<SgrClass>>)
    ensures
        r == sgr_effect(code),
{
    match code {
        0 => Some(None),
        1 => Some(Some(SgrClass::Bold)),
        2 => Some(Some(SgrClass::Dim)),
        3 => Some(Some(SgrClass::Italic)),
        4 => Some(Some(SgrClass::Underline)),
        30 => Some(Some(SgrClass::FgBlack)),
        31 => Some(Some(SgrClass::FgRed)),
        32 => Some(Some(SgrClass::FgGreen)),
        33 => Some(Some(SgrClass::FgYellow)),
        34 => Some(Some(SgrClass::FgBlue)),
        35 => Some(Some(SgrClass::FgMagenta)),
        36 => Some(Some(SgrClass::FgCyan)),
        37 => Some(Some(SgrClass::FgWhite)),
        90 => Some(Some(SgrClass::FgBrightBlack)),
        91 => Some(Some(SgrClass::FgBrightRed)),
        92 => Some(Some(SgrClass::FgBrightGreen)),
        93 => Some(Some(SgrClass::FgBrightYellow)),
        94 => Some(Some(SgrClass::FgBrightBlue)),
        95 => Some(Some(SgrClass::FgBrightMagenta)),
        96 => Some(Some(SgrClass::FgBrightCyan)),
        97 => Some(Some(SgrClass::FgBrightWhite)),
        _ => None,
    }
}

fn same_class(a: Option<SgrClass>, b: Option<SgrClass>) -> (r: bool)
    ensures
        r == (a == b),
{
    match (a, b) {
        (None, None) => true,
        (Some(x), Some(y)) => x == y,
        _ => false,
    }
}

/// Builds the HTML for a tokenized chunk.
struct HtmlPerformer {
    output: String,
    active_class: Option<SgrClass>,
}

impl HtmlPerformer {
    spec fn state(&self) -> RenderState {
        RenderState { out: self.output@, active: self.active_class }
    }

    fn finish(self) -> (html: String)
        ensures
            html@ == close_span(self.state()).out,
    {
        let mut this = self;
        this.close_span();
        this.output
    }

    fn push_escaped_char(&mut self, c: char)
        ensures
            final(self).state() == render_step(old(self).state(), TermEventView::Print(c)),
    {
        if c == '&' {
            self.output.append("&amp;");
        } else if c == '<' {
            self.output.append("&lt;");
        } else if c == '>' {
            self.output.append("&gt;");
        } else if c == '"' {
            self.output.append("&quot;");
        } else if c == '\'' {
            self.output.append("&#39;");
        } else {
            push_char(&mut self.output, c);
            assert(old(self).output@.push(c) =~= old(self).output@ + seq![c]);
        }
    }

    fn close_span(&mut self)
        ensures
            final(self).state() == close_span(old(self).state()),
    {
        if self.active_class.is_some() {
            self.active_class = None;
            self.output.append("</span>");
        }
    }

    fn set_class(&mut self, class: Option<SgrClass>)
        ensures
            final(self).state() == set_class(old(self).state(), class),
    {
        if same_class(self.active_class, class) {
            return;
        }
        self.close_span();
        if let Some(c) = class {
            let ghost before = self.output@;
            self.output.append("<span class=\"");
            self.output.append(class_text(c));
            self.output.append("\">");
            self.active_class = Some(c);
            assert(self.output@ =~= before + open_tag(c));
        }
    }

    fn apply_sgr(&mut self, params: &Vec<Vec<u16>>)
        ensures
            final(self).state() == apply_sgr(old(self).state(), params.deep_view()),
    {
        if params.len() == 0 {
            self.set_class(None);
            return;
        }
        let ghost groups = params.deep_view();
        let ghost start = self.state();
        let mut i: usize = 0;
        while i < params.len()
            invariant
                i <= params.len(),
                groups == params.deep_view(),
                groups.len() > 0,
                self.state() == apply_groups(start, groups.take(i as int)),
            decreases params.len() - i,
        {
            let group = &params[i];
            let code: u16 = if group.len() > 0 { group[0] } else { 0 };
            proof {
                assert(groups.take(i + 1).drop_last() =~= groups.take(i as int));
                assert(groups.take(i + 1).last() == groups[i as int]);
                assert(groups[i as int] == group.deep_view());
                assert(group.deep_view() =~= group@);
                assert(code == group_code(groups[i as int]));
            }
            match sgr_effect_of(code) {
                Some(class) => self.set_class(class),
                None => {},
            }
            i = i + 1;
        }
        assert(groups.take(params.len() as int) =~= groups);
    }

    fn perform(&mut self, event: &TermEvent)
        ensures
            final(self).state() == render_step(old(self).state(), event.deep_view()),
    {
        match event {
            TermEvent::Print(c) => self.push_escaped_char(*c),
            TermEvent::Execute(byte) => {
                if *byte == 9u8 {
                    self.output.append("    ");
                }
            },
            TermEvent::Csi { params, ignore, action } => {
                if !*ignore && *action == 'm' {
                    self.apply_sgr(params);
                }
            },
        }
    }
}

/// Renders tokenizer events as HTML.
pub fn render_events(events: &Vec<TermEvent>) -> (html: String)
    ensures
        html@ == render_html(events.deep_view()),
{
    let ghost evs = events.deep_view();
    let mut performer = HtmlPerformer { output: String::new(), active_class: None };
    let mut i: usize = 0;
    while i < events.len()
        invariant
            i <= events.len(),
            evs == events.deep_view(),
            performer.state() == render_state(evs.take(i as int)),
        decreases events.len() - i,
    {
        proof {
            assert(evs.take(i + 1).drop_last() =~= evs.take(i as int));
            assert(evs.take(i + 1).last() == evs[i as int]);
        }
        performer.perform(&events[i]);
        i = i + 1;
    }
    assert(evs.take(events.len() as int) =~= evs);
    performer.finish()
}

/// No character of `s` is a control character.
pub open spec fn free_of_controls(s: Seq<char>) -> bool {
    forall|i: int| 0 <= i < s.len() ==> !is_control(#[trigger] s[i])
}

proof fn lemma_free_concat(a: Seq<char>, b: Seq<char>)
    requires
        free_of_controls(a),
        free_of_controls(b),
    ensures
        free_of_controls(a + b),
{
    assert forall|i: int| 0 <= i < (a + b).len() implies !is_control(#[trigger] (a + b)[i]) by {
        if i < a.len() {
            assert((a + b)[i] == a[i]);
        } else {
            assert((a + b)[i] == b[i - a.len()]);
        }
    }
}

proof fn lemma_class_name_free(c: SgrClass)
    ensures
        free_of_controls(class_name(c)),
{
    reveal_strlit("ansi-bold");
    reveal_strlit("ansi-dim");
    reveal_strlit("ansi-italic");
    reveal_strlit("ansi-underline");
    reveal_strlit("ansi-fg-black");
    reveal_strlit("ansi-fg-red");
    reveal_strlit("ansi-fg-green");
    reveal_strlit("ansi-fg-yellow");
    reveal_strlit("ansi-fg-blue");
    reveal_strlit("ansi-fg-magenta");
    reveal_strlit("ansi-fg-cyan");
    reveal_strlit("ansi-fg-white");
    reveal_strlit("ansi-fg-bright-black");
    reveal_strlit("ansi-fg-bright-red");
    reveal_strlit("ansi-fg-bright-green");
    reveal_strlit("ansi-fg-bright-yellow");
    reveal_strlit("ansi-fg-bright-blue");
    reveal_strlit("ansi-fg-bright-magenta");
    reveal_strlit("ansi-fg-bright-cyan");
    reveal_strlit("ansi-fg-bright-white");
}

proof fn lemma_markup_free(c: SgrClass)
    ensures
        free_of_controls(open_tag(c)),
        free_of_controls("</span>"@),
        free_of_controls("    "@),
{
    reveal_strlit("<span class=\"");
    reveal_strlit("\">");
    reveal_strlit("</span>");
    reveal_strlit("    ");
    lemma_class_name_free(c);
    lemma_free_concat("<span class=\""@, class_name(c));
    lemma_free_concat("<span class=\""@ + class_name(c), "\">"@);
}

proof fn lemma_escape_free(c: char)
    requires
        !is_control(c),
    ensures
        free_of_controls(escape_char(c)),
{
    reveal_strlit("&amp;");
    reveal_strlit("&lt;");
    reveal_strlit("&gt;");
    reveal_strlit("&quot;");
    reveal_strlit("&#39;");
}

proof fn lemma_close_free(s: RenderState)
    requires
        free_of_controls(s.out),
    ensures
        free_of_controls(close_span(s).out),
{
    lemma_markup_free(SgrClass::Bold);
    lemma_free_concat(s.out, "</span>"@);
}

proof fn lemma_set_class_free(s: RenderState, class: Option<SgrClass>)
    requires
        free_of_controls(s.out),
    ensures
        free_of_controls(set_class(s, class).out),
{
    lemma_close_free(s);
    if let Some(c) = class {
        lemma_markup_free(c);
        lemma_free_concat(close_span(s).out, open_tag(c));
    }
}

proof fn lemma_groups_free(s: RenderState, groups: Seq<Seq<u16>>)
    requires
        free_of_controls(s.out),
    ensures
        free_of_controls(apply_groups(s, groups).out),
    decreases groups.len(),
{
    if groups.len() > 0 {
        lemma_groups_free(s, groups.drop_last());
        let before = apply_groups(s, groups.drop_last());
        match sgr_effect(group_code(groups.last())) {
            Some(class) => lemma_set_class_free(before, class),
            None => {},
        }
    }
}

proof fn lemma_render_state_free(events: Seq<TermEventView>)
    requires
        prints_no_controls(events),
    ensures
        free_of_controls(render_state(events).out),
    decreases events.len(),
{
    if events.len() > 0 {
        let rest = events.drop_last();
        assert(prints_no_controls(rest)) by {
            assert forall|i: int| 0 <= i < rest.len() implies (#[trigger] rest[i] matches TermEventView::Print(c)
                ==> !is_control(c)) by {
                assert(rest[i] == events[i]);
            }
        }
        lemma_render_state_free(rest);
        let s = render_state(rest);
        let e = events.last();
        assert(e == events[events.len() - 1]);
        match e {
            TermEventView::Print(c) => {
                lemma_escape_free(c);
                lemma_free_concat(s.out, escape_char(c));
            },
            TermEventView::Execute(b) => {
                lemma_markup_free(SgrClass::Bold);
                lemma_free_concat(s.out, "    "@);
            },
            TermEventView::Csi { params, ignore, action } => {
                if !ignore && action == 'm' {
                    if params.len() == 0 {
                        lemma_set_class_free(s, None);
                    } else {
                        lemma_groups_free(s, params);
                    }
                }
            },
        }
    }
}

/// Law: when no event prints a control character, the rendered HTML holds
/// none either: no ESC, no other C0 or C1 control.
pub proof fn law_rendered_html_has_no_controls(events: Seq<TermEventView>)
    requires
        prints_no_controls(events),
    ensures
        free_of_controls(render_html(events)),
{
    lemma_render_state_free(events);
    lemma_close_free(render_state(events));
}

/// Turns a chunk of terminal output into inert HTML: printable text is
/// escaped, SGR styles become `ansi-*` spans, everything else is dropped.
/// No control character (ESC among them) reaches the HTML.
pub fn sanitize_chunk(bytes: &[u8]) -> (html: String)
    ensures
        html@ == sanitize_html(bytes@),
        free_of_controls(html@),
{
    let events = tokenize(bytes);
    proof {
        law_rendered_html_has_no_controls(events.deep_view());
    }
    render_events(&events)
}

/// SGR code `code` selects the style whose class is `name`.
pub open spec fn selects(code: u16, name: Seq<char>) -> bool {
    sgr_effect(code) matches Some(Some(c)) && class_name(c) == name
}

/// Law: the SGR codes and the classes they select: 0 resets, 1 to 4 are
/// bold, dim, italic and underline, 30 to 37 the eight standard foreground
/// colours and 90 to 97 their bright forms, each named after its colour;
/// every other code leaves the style as it is.
pub proof fn law_sgr_code_table(code: u16)
    ensures
        sgr_effect(0) == Some(None::<SgrClass>),
        selects(1, "ansi-bold"@),
        selects(2, "ansi-dim"@),
        selects(3, "ansi-italic"@),
        selects(4, "ansi-underline"@),
        selects(30, "ansi-fg-black"@),
        selects(31, "ansi-fg-red"@),
        selects(32, "ansi-fg-green"@),
        selects(33, "ansi-fg-yellow"@),
        selects(34, "ansi-fg-blue"@),
        selects(35, "ansi-fg-magenta"@),
        selects(36, "ansi-fg-cyan"@),
        selects(37, "ansi-fg-white"@),
        selects(90, "ansi-fg-bright-black"@),
        selects(91, "ansi-fg-bright-red"@),
        selects(92, "ansi-fg-bright-green"@),
        selects(93, "ansi-fg-bright-yellow"@),
        selects(94, "ansi-fg-bright-blue"@),
        selects(95, "ansi-fg-bright-magenta"@),
        selects(96, "ansi-fg-bright-cyan"@),
        selects(97, "ansi-fg-bright-white"@),
        !(code == 0 || code == 1 || code == 2 || code == 3 || code == 4 || code == 30 || code == 31 || code == 32 || code == 33 || code == 34 || code == 35 || code == 36 || code == 37 || code == 90 || code == 91 || code == 92 || code == 93 || code == 94 || code == 95 || code == 96 || code == 97) ==> sgr_effect(code) is None,
{
}

/// Law: the five HTML-special characters print as their entities, and
/// every other printable character prints as itself.
pub proof fn law_escape_table(c: char)
    ensures
        escape_char('&') == "&amp;"@,
        escape_char('<') == "&lt;"@,
        escape_char('>') == "&gt;"@,
        escape_char('"') == "&quot;"@,
        escape_char('\'') == "&#39;"@,
        !(c == '&' || c == '<' || c == '>' || c == '"' || c == '\'') ==> escape_char(c) == seq![c],
{
}

} // verus!
