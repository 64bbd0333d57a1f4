//! What holds of every scan: the shape of header lines, that no character is
//! lost at span boundaries, and that each line feed gives one newline token.
use vstd::prelude::*;
use crate::lex::{
    hash_run_end, header_view, is_list_mark, is_newline_at, is_white_space, lemma_scan_bounds,
    lemma_step_progress, lex, lex_from, line_end, newline_view, skip_blank, step_next,
    step_tokens, text_after, TokenView,
};

verus! {

broadcast use vstd::seq_lib::group_seq_properties;

/// A run of `n` `#` characters.
pub open spec fn hashes(n: int) -> Seq<char> {
    Seq::new(n as nat, |k: int| '#')
}

/// The canonical spelling of a token: the marker as written in markdown, or
/// the text itself.
pub open spec fn spelling(t: TokenView) -> Seq<char> {
    match t {
        TokenView::H1 => hashes(1),
        TokenView::H2 => hashes(2),
        TokenView::H3 => hashes(3),
        TokenView::H4 => hashes(4),
        TokenView::H5 => hashes(5),
        TokenView::H6 => hashes(6),
        TokenView::OrderedList => seq!['1', '.'],
        TokenView::UnOrderedList => seq!['-'],
        TokenView::Quote => seq!['>'],
        TokenView::Underline => seq!['_'],
        TokenView::Strong => seq!['*', '*'],
        TokenView::Italic => seq!['*'],
        TokenView::StrongItalic => seq!['*', '*', '*'],
        TokenView::InlineCode => seq!['`'],
        TokenView::Code => seq!['`', '`', '`'],
        TokenView::Text(p) => p,
    }
}

/// The spellings of a sequence of tokens, one after the other.
pub open spec fn spell_all(ts: Seq<TokenView>) -> Seq<char>
    decreases ts.len(),
{
    if ts.len() == 0 {
        seq![]
    } else {
        spelling(ts[0]) + spell_all(ts.drop_first())
    }
}

/// The canonical form of a marker as written: a list opened by `*` is spelled
/// `-`, and a line break `\r\n` is spelled `\n`.
pub open spec fn canonical(m: Seq<char>) -> Seq<char> {
    if m == seq!['*'] {
        seq!['-']
    } else if m == seq!['\r', '\n'] {
        seq!['\n']
    } else {
        m
    }
}

/// Every character of `s` in `[a, b)` is white space.
pub open spec fn all_white(s: Seq<char>, a: int, b: int) -> bool {
    forall|k: int| a <= k < b ==> is_white_space(#[trigger] s[k])
}

proof fn lemma_hash_run(s: Seq<char>, i: int)
    requires
        0 <= i <= s.len(),
    ensures
        forall|k: int| i <= k < hash_run_end(s, i) ==> s[k] == '#',
    decreases s.len() - i,
{
    if i < s.len() && s[i] == '#' {
        lemma_hash_run(s, i + 1);
    }
}

proof fn lemma_blank_run(s: Seq<char>, i: int)
    requires
        0 <= i <= s.len(),
    ensures
        all_white(s, i, skip_blank(s, i)),
        forall|k: int| i <= k < skip_blank(s, i) ==> !is_newline_at(s, k),
    decreases s.len() - i,
{
    if 0 <= i < s.len() && is_white_space(s[i]) && !is_newline_at(s, i) {
        lemma_blank_run(s, i + 1);
    }
}

proof fn lemma_line_run(s: Seq<char>, i: int)
    requires
        0 <= i <= s.len(),
    ensures
        forall|k: int| i <= k < line_end(s, i) ==> !is_newline_at(s, k),
    decreases s.len() - i,
{
    if 0 <= i < s.len() && !is_newline_at(s, i) {
        lemma_line_run(s, i + 1);
    }
}

proof fn lemma_hash_run_exact(s: Seq<char>, i: int, e: int)
    requires
        0 <= i <= e <= s.len(),
        forall|k: int| i <= k < e ==> s[k] == '#',
        e == s.len() || s[e] != '#',
    ensures
        hash_run_end(s, i) == e,
    decreases e - i,
{
    if i < e {
        lemma_hash_run_exact(s, i + 1, e);
    }
}

proof fn lemma_line_exact(s: Seq<char>, i: int, e: int)
    requires
        0 <= i <= e <= s.len(),
        forall|k: int| i <= k < e ==> !is_newline_at(s, k),
        e == s.len() || is_newline_at(s, e),
    ensures
        line_end(s, i) == e,
    decreases e - i,
{
    if i < e {
        lemma_line_exact(s, i + 1, e);
    }
}

proof fn lemma_spell_two(a: TokenView, b: TokenView)
    ensures
        spell_all(seq![a, b]) == spelling(a) + spelling(b),
        spell_all(seq![a]) == spelling(a),
{
    reveal_with_fuel(spell_all, 3);
    assert(seq![a, b].drop_first() =~= seq![b]);
    assert(seq![b].drop_first() =~= Seq::<TokenView>::empty());
    assert(seq![a].drop_first() =~= Seq::<TokenView>::empty());
    assert(spelling(a) + spelling(b) + Seq::<char>::empty() =~= spelling(a) + spelling(b));
    assert(spelling(a) + Seq::<char>::empty() =~= spelling(a));
}

/// One step of the scan loses no character: what it consumed is the written
/// form of its marker, then a run of white space, then exactly its text; the
/// spelling of the tokens it emitted is the canonical form of that marker
/// followed by that text.
pub proof fn lemma_step_round_trip(s: Seq<char>, i: int)
    requires
        0 <= i < s.len(),
    ensures
        i < step_next(s, i) <= s.len(),
        exists|m: int, j: int|
            i <= m <= j <= step_next(s, i) && all_white(s, m, j) && spell_all(step_tokens(s, i))
                == canonical(s.subrange(i, m)) + s.subrange(j, step_next(s, i)),
{
    lemma_step_progress(s, i);
    lemma_scan_bounds(s, i);
    lemma_scan_bounds(s, i + 1);
    let next = step_next(s, i);
    let toks = step_tokens(s, i);
    if s[i] == '#' {
        let e = hash_run_end(s, i);
        lemma_hash_run(s, i);
        lemma_scan_bounds(s, e);
        if e - i <= 6 {
            let j = skip_blank(s, e);
            lemma_blank_run(s, e);
            let marker = header_view(e - i)->Some_0;
            lemma_spell_two(marker, TokenView::Text(text_after(s, e)));
            assert(spelling(marker) =~= s.subrange(i, e));
            assert(canonical(s.subrange(i, e)) == s.subrange(i, e));
            assert(spell_all(toks) == canonical(s.subrange(i, e)) + s.subrange(j, next));
            assert(i <= e <= j <= next && all_white(s, e, j) && spell_all(toks) == canonical(s.subrange(i, e)) + s.subrange(j, next));
        } else {
            lemma_spell_two(TokenView::Text(s.subrange(i, e)), TokenView::Text(s.subrange(i, e)));
            assert(s.subrange(i, i) =~= Seq::<char>::empty());
            assert(canonical(s.subrange(i, i)) + s.subrange(i, next) =~= s.subrange(i, e));
            assert(spell_all(toks) == canonical(s.subrange(i, i)) + s.subrange(i, next));
            assert(i <= i <= i <= next && all_white(s, i, i) && spell_all(toks) == canonical(s.subrange(i, i)) + s.subrange(i, next));
        }
    } else if is_list_mark(s[i]) || s[i] == '>' {
        let j = skip_blank(s, i + 1);
        lemma_blank_run(s, i + 1);
        let marker = if is_list_mark(s[i]) {
            TokenView::UnOrderedList
        } else {
            TokenView::Quote
        };
        lemma_spell_two(marker, TokenView::Text(text_after(s, i + 1)));
        assert(s.subrange(i, i + 1) =~= seq![s[i]]);
        assert(canonical(s.subrange(i, i + 1)) == spelling(marker));
        assert(spell_all(toks) == canonical(s.subrange(i, i + 1)) + s.subrange(j, next));
        assert(i <= i + 1 <= j <= next && all_white(s, i + 1, j) && spell_all(toks) == canonical(s.subrange(i, i + 1)) + s.subrange(j, next));
    } else if is_newline_at(s, i) {
        lemma_spell_two(newline_view(), newline_view());
        if s[i] == '\n' {
            assert(s.subrange(i, next) =~= seq!['\n']);
        } else {
            assert(s.subrange(i, next) =~= seq!['\r', '\n']);
        }
        assert(s.subrange(next, next) =~= Seq::<char>::empty());
        assert(spell_all(toks) =~= canonical(s.subrange(i, next)) + s.subrange(next, next));
        assert(i <= next <= next <= next && all_white(s, next, next) && spell_all(toks) == canonical(s.subrange(i, next)) + s.subrange(next, next));
    } else {
        let j = skip_blank(s, i);
        lemma_blank_run(s, i);
        lemma_spell_two(TokenView::Text(text_after(s, i)), TokenView::Text(text_after(s, i)));
        assert(s.subrange(i, i) =~= Seq::<char>::empty());
        assert(canonical(s.subrange(i, i)) + s.subrange(j, next) =~= s.subrange(j, next));
        assert(spell_all(toks) == canonical(s.subrange(i, i)) + s.subrange(j, next));
        assert(i <= i <= j <= next && all_white(s, i, j) && spell_all(toks) == canonical(s.subrange(i, i)) + s.subrange(j, next));
    }
}

/// The newline tokens of a sequence of tokens.
pub open spec fn newline_tokens_of(ts: Seq<TokenView>) -> Seq<TokenView> {
    ts.filter(|t: TokenView| t == newline_view())
}

/// The line feeds of a text.
pub open spec fn line_feeds_of(s: Seq<char>) -> Seq<char> {
    s.filter(|c: char| c == '\n')
}

proof fn lemma_filter_none<A>(t: Seq<A>, pred: spec_fn(A) -> bool)
    requires
        forall|k: int| 0 <= k < t.len() ==> !pred(#[trigger] t[k]),
    ensures
        t.filter(pred).len() == 0,
{
    if t.filter(pred).len() > 0 {
        let x = t.filter(pred)[0];
        t.lemma_filter_pred(pred, 0);
        assert(t.filter(pred).contains(x));
        t.lemma_filter_contains_rev(pred, x);
        let k = choose|k: int| 0 <= k < t.len() && t[k] == x;
        assert(!pred(t[k]));
    }
}

/// The newline tokens of one step are as many as the line feeds it consumed.
proof fn lemma_step_line_feeds(s: Seq<char>, i: int)
    requires
        0 <= i < s.len(),
    ensures
        newline_tokens_of(step_tokens(s, i)).len() == line_feeds_of(
            s.subrange(i, step_next(s, i)),
        ).len(),
{
    lemma_step_progress(s, i);
    lemma_scan_bounds(s, i);
    lemma_scan_bounds(s, i + 1);
    let next = step_next(s, i);
    let toks = step_tokens(s, i);
    let pred = |t: TokenView| t == newline_view();
    reveal_with_fuel(Seq::filter, 3);
    if is_newline_at(s, i) && s[i] != '#' && !is_list_mark(s[i]) && s[i] != '>' {
        if s[i] == '\n' {
            assert(s.subrange(i, next) =~= seq!['\n']);
        } else {
            assert(s.subrange(i, next) =~= seq!['\r', '\n']);
        }
        assert(newline_tokens_of(toks) =~= seq![newline_view()]);
    } else {
        // no line feed is consumed and every text emitted is free of line feeds
        let e = hash_run_end(s, i);
        lemma_hash_run(s, i);
        lemma_scan_bounds(s, e);
        let from = if s[i] == '#' {
            e
        } else if is_list_mark(s[i]) || s[i] == '>' {
            i + 1
        } else {
            i
        };
        lemma_scan_bounds(s, from);
        lemma_blank_run(s, from);
        lemma_line_run(s, skip_blank(s, from));
        assert forall|k: int| i <= k < next implies s[k] != '\n' by {
            if s[k] == '\n' {
                assert(is_newline_at(s, k));
            }
        }
        lemma_filter_none(s.subrange(i, next), |c: char| c == '\n');
        let b = skip_blank(s, from);
        assert(b < line_end(s, b) ==> s[b] != '\n') by {
            if b < line_end(s, b) && s[b] == '\n' {
                assert(is_newline_at(s, b));
            }
        }
        assert forall|k: int| 0 <= k < toks.len() implies toks[k] != newline_view() by {
            if toks[k] == newline_view() {
                let p = toks[k]->Text_0;
                assert(p.len() == 1 && p[0] == '\n');
                if s[i] == '#' && e - i > 6 {
                    assert(p[0] == s[i]);
                } else {
                    assert(p[0] == s[b]);
                }
            }
        }
        lemma_filter_none(toks, |t: TokenView| t == newline_view());
    }
}

proof fn lemma_newline_count_from(s: Seq<char>, i: int)
    requires
        0 <= i <= s.len(),
    ensures
        newline_tokens_of(lex_from(s, i)).len() == line_feeds_of(s.subrange(i, s.len() as int)).len(),
    decreases s.len() - i,
{
    if i == s.len() {
        assert(s.subrange(i, i) =~= Seq::<char>::empty());
        assert(lex_from(s, i) =~= Seq::<TokenView>::empty());
        assert(line_feeds_of(s.subrange(i, i)) =~= Seq::<char>::empty());
        assert(newline_tokens_of(lex_from(s, i)) =~= Seq::<TokenView>::empty());
    } else {
        let next = step_next(s, i);
        lemma_step_progress(s, i);
        lemma_newline_count_from(s, next);
        lemma_step_line_feeds(s, i);
        let pred = |t: TokenView| t == newline_view();
        let cpred = |c: char| c == '\n';
        Seq::filter_distributes_over_add(step_tokens(s, i), lex_from(s, next), pred);
        assert(s.subrange(i, s.len() as int) =~= s.subrange(i, next) + s.subrange(
            next,
            s.len() as int,
        ));
        Seq::filter_distributes_over_add(
            s.subrange(i, next),
            s.subrange(next, s.len() as int),
            cpred,
        );
    }
}

/// Every line feed of a text, alone or after a carriage return, gives exactly
/// one newline token, and no newline token comes from anything else.
pub proof fn lemma_one_newline_token_per_line_feed(s: Seq<char>)
    ensures
        newline_tokens_of(lex(s)).len() == line_feeds_of(s).len(),
{
    lemma_newline_count_from(s, 0);
    assert(s.subrange(0, s.len() as int) =~= s);
}

/// A line of 1 to 6 `#`, a space and a text that holds no line break and does
/// not open with white space scans to the header marker of that level and then
/// that text, whether the line ends the input or a line break follows it.
pub proof fn lemma_header_line(n: int, t: Seq<char>, rest: Seq<char>)
    requires
        1 <= n <= 6,
        forall|k: int| 0 <= k < t.len() ==> t[k] != '\n' && t[k] != '\r',
        t.len() > 0 ==> !is_white_space(t[0]),
        rest.len() == 0 || is_newline_at(rest, 0),
    ensures
        lex(hashes(n) + seq![' '] + t + rest).take(2) == seq![
            header_view(n)->Some_0,
            TokenView::Text(t),
        ],
{
    let s = hashes(n) + seq![' '] + t + rest;
    let b = n + 1;
    let e = b + t.len();
    lemma_hash_run_exact(s, 0, n);
    assert(is_white_space(s[n]) && !is_newline_at(s, n));
    assert(skip_blank(s, n) == skip_blank(s, b));
    assert(skip_blank(s, b) == b) by {
        if b < s.len() && is_white_space(s[b]) && !is_newline_at(s, b) {
            if t.len() > 0 {
                assert(s[b] == t[0]);
            } else {
                assert(s[b] == rest[0]);
            }
        }
    }
    assert forall|k: int| b <= k < e implies !is_newline_at(s, k) by {
        assert(s[k] == t[k - b]);
    }
    assert(e == s.len() || is_newline_at(s, e)) by {
        if e < s.len() {
            assert(s[e] == rest[0]);
            if rest.len() > 1 {
                assert(s[e + 1] == rest[1]);
            }
        }
    }
    lemma_line_exact(s, b, e);
    lemma_step_progress(s, 0);
    assert(s.subrange(b, e) =~= t);
    assert(step_tokens(s, 0) == seq![header_view(n)->Some_0, TokenView::Text(t)]);
    assert(lex(s).take(2) =~= step_tokens(s, 0));
}

} // verus!
