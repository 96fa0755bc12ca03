//! What the rendered HTML can contain: escaped text and this module's own
//! span tags, each span closed before the next opens and none left open.
//! Whatever bytes a program prints, no markup of its own gets through.
use vstd::prelude::*;

use super::render::{
    apply_groups, apply_sgr, close_span, escape_char, group_code, open_tag, render_html, render_state, render_step,
    sanitize_html, set_class, sgr_effect, RenderState, SgrClass, TermEventView,
};

verus! {

/// A character that needs no escaping in HTML text.
pub open spec fn is_plain(c: char) -> bool {
    c != '<' && c != '>' && c != '&' && c != '"' && c != '\''
}

/// One piece of the rendered HTML: plain text, a character entity, or an
/// opening or closing span tag of a style.
pub open spec fn html_token(t: Seq<char>) -> bool {
    ||| (t.len() > 0 && forall|i: int| 0 <= i < t.len() ==> is_plain(#[trigger] t[i]))
    ||| t == "&amp;"@
    ||| t == "&lt;"@
    ||| t == "&gt;"@
    ||| t == "&quot;"@
    ||| t == "&#39;"@
    ||| exists|c: SgrClass| t == #[trigger] open_tag(c)
    ||| t == "</span>"@
}

/// How many spans are open after a sequence of tokens.
pub open spec fn span_depth(toks: Seq<Seq<char>>) -> int
    decreases toks.len(),
{
    if toks.len() == 0 {
        0
    } else {
        span_depth(toks.drop_last()) + if toks.last() == "</span>"@ {
            -1int
        } else if exists|c: SgrClass| toks.last() == #[trigger] open_tag(c) {
            1int
        } else {
            0int
        }
    }
}

/// Spans never nest and are never closed when none is open: after every
/// prefix of the tokens, at most one span is open.
pub open spec fn spans_alternate(toks: Seq<Seq<char>>) -> bool
    decreases toks.len(),
{
    if toks.len() == 0 {
        true
    } else {
        spans_alternate(toks.drop_last()) && 0 <= span_depth(toks) <= 1
    }
}

/// `toks` is a valid tokenization of `out`, leaving `depth` spans open.
pub open spec fn tokenizes(toks: Seq<Seq<char>>, out: Seq<char>, depth: int) -> bool {
    &&& forall|i: int| 0 <= i < toks.len() ==> html_token(#[trigger] toks[i])
    &&& toks.flatten() == out
    &&& spans_alternate(toks)
    &&& span_depth(toks) == depth
}

/// HTML made only of escaped text and alternating style spans, all closed.
pub open spec fn inert_markup(out: Seq<char>) -> bool {
    exists|toks: Seq<Seq<char>>| #[trigger] tokenizes(toks, out, 0)
}

/// A rendering state whose text so far is well formed, with one span open
/// exactly when a style is active.
pub open spec fn state_ok(s: RenderState) -> bool {
    exists|toks: Seq<Seq<char>>| #[trigger] tokenizes(toks, s.out, open_spans(s))
}

/// How many spans a rendering state has open.
pub open spec fn open_spans(s: RenderState) -> int {
    if s.active is Some {
        1
    } else {
        0
    }
}

proof fn lemma_close_not_open(c: SgrClass)
    ensures
        open_tag(c) != "</span>"@,
{
    reveal_strlit("</span>");
    reveal_strlit("<span class=\"");
    assert(open_tag(c)[1] == 's');
    assert("</span>"@[1] == '/');
}

proof fn lemma_push(toks: Seq<Seq<char>>, out: Seq<char>, depth: int, t: Seq<char>, delta: int)
    requires
        tokenizes(toks, out, depth),
        html_token(t),
        delta == (if t == "</span>"@ {
            -1int
        } else if exists|c: SgrClass| t == #[trigger] open_tag(c) {
            1int
        } else {
            0int
        }),
        0 <= depth + delta <= 1,
    ensures
        tokenizes(toks.push(t), out + t, depth + delta),
{
    let nt = toks.push(t);
    toks.lemma_flatten_push(t);
    assert(nt.drop_last() =~= toks);
    assert(nt.last() == t);
    assert forall|i: int| 0 <= i < nt.len() implies html_token(#[trigger] nt[i]) by {
        if i < toks.len() {
            assert(nt[i] == toks[i]);
        }
    }
}

proof fn lemma_plain_text(t: Seq<char>, toks: Seq<Seq<char>>, out: Seq<char>, depth: int)
    requires
        tokenizes(toks, out, depth),
        0 <= depth <= 1,
        t.len() > 0,
        forall|i: int| 0 <= i < t.len() ==> is_plain(#[trigger] t[i]),
    ensures
        tokenizes(toks.push(t), out + t, depth),
{
    reveal_strlit("</span>");
    assert(t != "</span>"@) by {
        assert(is_plain(t[0]));
    }
    if exists|c: SgrClass| t == #[trigger] open_tag(c) {
        let c = choose|c: SgrClass| t == #[trigger] open_tag(c);
        reveal_strlit("<span class=\"");
        assert(open_tag(c)[0] == '<');
        assert(is_plain(t[0]));
    }
    lemma_push(toks, out, depth, t, 0);
}

proof fn lemma_print(s: RenderState, ch: char)
    requires
        state_ok(s),
    ensures
        state_ok(RenderState { out: s.out + escape_char(ch), active: s.active }),
{
    let d = open_spans(s);
    let toks = choose|toks: Seq<Seq<char>>| #[trigger] tokenizes(toks, s.out, open_spans(s));
    reveal_strlit("&amp;");
    reveal_strlit("&lt;");
    reveal_strlit("&gt;");
    reveal_strlit("&quot;");
    reveal_strlit("&#39;");
    reveal_strlit("</span>");
    reveal_strlit("<span class=\"");
    let t = escape_char(ch);
    if is_plain(ch) {
        assert(t == seq![ch]);
        lemma_plain_text(t, toks, s.out, d);
    } else {
        assert(t != "</span>"@);
        if exists|c: SgrClass| t == #[trigger] open_tag(c) {
            let c = choose|c: SgrClass| t == #[trigger] open_tag(c);
            assert(open_tag(c)[0] == '<');
            assert(t[0] == '&');
        }
        lemma_push(toks, s.out, d, t, 0);
    }
    let next = RenderState { out: s.out + escape_char(ch), active: s.active };
    assert(tokenizes(toks.push(t), next.out, open_spans(next)));
}

proof fn lemma_tab(s: RenderState)
    requires
        state_ok(s),
    ensures
        state_ok(RenderState { out: s.out + "    "@, active: s.active }),
{
    let d = open_spans(s);
    let toks = choose|toks: Seq<Seq<char>>| #[trigger] tokenizes(toks, s.out, open_spans(s));
    reveal_strlit("    ");
    lemma_plain_text("    "@, toks, s.out, d);
    let next = RenderState { out: s.out + "    "@, active: s.active };
    assert(tokenizes(toks.push("    "@), next.out, open_spans(next)));
}

proof fn lemma_close(s: RenderState)
    requires
        state_ok(s),
    ensures
        state_ok(close_span(s)),
        close_span(s).active is None,
{
    if s.active is Some {
        let toks = choose|toks: Seq<Seq<char>>| #[trigger] tokenizes(toks, s.out, open_spans(s));
        let t = "</span>"@;
        assert(!exists|c: SgrClass| t == #[trigger] open_tag(c)) by {
            if exists|c: SgrClass| t == #[trigger] open_tag(c) {
                let c = choose|c: SgrClass| t == #[trigger] open_tag(c);
                lemma_close_not_open(c);
            }
        }
        lemma_push(toks, s.out, 1, t, -1);
        assert(tokenizes(toks.push(t), close_span(s).out, open_spans(close_span(s))));
    }
}

proof fn lemma_set_class(s: RenderState, class: Option<SgrClass>)
    requires
        state_ok(s),
    ensures
        state_ok(set_class(s, class)),
{
    if s.active != class {
        lemma_close(s);
        let closed = close_span(s);
        if let Some(c) = class {
            let toks = choose|toks: Seq<Seq<char>>| #[trigger] tokenizes(toks, closed.out, open_spans(closed));
            let t = open_tag(c);
            lemma_close_not_open(c);
            lemma_push(toks, closed.out, 0, t, 1);
            let next = set_class(s, class);
            assert(tokenizes(toks.push(t), next.out, open_spans(next)));
        }
    }
}

proof fn lemma_groups(s: RenderState, groups: Seq<Seq<u16>>)
    requires
        state_ok(s),
    ensures
        state_ok(apply_groups(s, groups)),
    decreases groups.len(),
{
    if groups.len() > 0 {
        lemma_groups(s, groups.drop_last());
        let before = apply_groups(s, groups.drop_last());
        if let Some(class) = sgr_effect(group_code(groups.last())) {
            lemma_set_class(before, class);
        }
    }
}

proof fn lemma_step(s: RenderState, e: TermEventView)
    requires
        state_ok(s),
    ensures
        state_ok(render_step(s, e)),
{
    match e {
        TermEventView::Print(c) => lemma_print(s, c),
        TermEventView::Execute(b) => if b == 9 {
            lemma_tab(s);
        },
        TermEventView::Csi { params, ignore, action } => if !ignore && action == 'm' {
            if params.len() == 0 {
                lemma_set_class(s, None);
            } else {
                lemma_groups(s, params);
            }
            assert(state_ok(apply_sgr(s, params)));
        },
    }
}

proof fn lemma_state(events: Seq<TermEventView>)
    ensures
        state_ok(render_state(events)),
    decreases events.len(),
{
    if events.len() == 0 {
        let toks: Seq<Seq<char>> = Seq::empty();
        assert(toks.flatten() =~= Seq::<char>::empty());
        assert(tokenizes(toks, render_state(events).out, open_spans(render_state(events))));
    } else {
        lemma_state(events.drop_last());
        lemma_step(render_state(events.drop_last()), events.last());
    }
}

/// Law: whatever events a terminal stream produces, the rendered HTML is
/// only escaped text and the styles' span tags, every span closed before
/// the next one opens and none left open at the end.
pub proof fn law_rendered_html_is_inert(events: Seq<TermEventView>)
    ensures
        inert_markup(render_html(events)),
{
    lemma_state(events);
    lemma_close(render_state(events));
}

/// Law: a sanitized chunk of output, whatever its bytes, is inert HTML.
pub proof fn law_sanitized_chunk_is_inert(bytes: Seq<u8>)
    ensures
        inert_markup(sanitize_html(bytes)),
{
    law_rendered_html_is_inert(super::render::vt_events(bytes));
}

} // verus!
