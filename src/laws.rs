use vstd::prelude::*;
use crate::Tree;
use crate::parser::{Step, ParseFail, col_of, is_space, is_bare, bare_end, quote_end, parse_value, parse_items, parse_text};
use crate::ser::{needs_quotes, atom_text, spaces, rule_of, separator, render, render_items, render_plain};

verus! {

/// An atom whose text comes back from its rendering: a quoted one holds no
/// quote; a bare one holds no line break and starts with neither a quote nor
/// a tab.
pub open spec fn atom_ok(a: Seq<char>) -> bool {
    if needs_quotes(a) {
        forall|i: int| 0 <= i < a.len() ==> a[i] != '"'
    } else {
        &&& a[0] != '"'
        &&& a[0] != '\t'
        &&& forall|i: int| 0 <= i < a.len() ==> a[i] != '\r' && a[i] != '\n'
    }
}

/// A tree that the parser can give back: valid atoms, and `Empty` nowhere.
pub open spec fn valid(t: Tree) -> bool
    decreases t,
{
    match t {
        Tree::Atom(a) => atom_ok(a),
        Tree::Empty => false,
        Tree::List(items) => valid_items(items),
    }
}

pub open spec fn valid_items(items: Seq<Tree>) -> bool
    decreases items,
{
    items.len() == 0 || (valid(items[0]) && valid_items(items.subrange(1, items.len() as int)))
}

/// A tree that a text can stand for: `Empty`, or a valid tree.
pub open spec fn valid_top(t: Tree) -> bool {
    t is Empty || valid(t)
}

/// `t` holds `s` at position `p`.
pub open spec fn holds_at(t: Seq<char>, p: int, s: Seq<char>) -> bool {
    0 <= p && p + s.len() <= t.len() && t.subrange(p, p + s.len()) == s
}

proof fn lemma_holds_index(t: Seq<char>, p: int, s: Seq<char>, k: int)
    requires
        holds_at(t, p, s),
        0 <= k < s.len(),
    ensures
        t[p + k] == s[k],
{
    assert(t.subrange(p, p + s.len())[k] == t[p + k]);
}

proof fn lemma_holds_part(t: Seq<char>, p: int, s: Seq<char>, q: int, n: int)
    requires
        holds_at(t, p, s),
        0 <= q <= q + n <= s.len(),
    ensures
        holds_at(t, p + q, s.subrange(q, q + n)),
{
    assert forall|k: int| 0 <= k < n implies #[trigger] t.subrange(p + q, p + q + n)[k] == s.subrange(
        q,
        q + n,
    )[k] by {
        lemma_holds_index(t, p, s, q + k);
    }
    assert(t.subrange(p + q, p + q + n) =~= s.subrange(q, q + n));
}

proof fn lemma_bare_end(t: Seq<char>, p: int, n: int)
    requires
        0 <= p,
        0 <= n,
        p + n <= t.len(),
        forall|k: int| p <= k < p + n ==> is_bare(t[k]),
        p + n == t.len() || !is_bare(t[p + n]),
    ensures
        bare_end(t, p) == p + n,
    decreases n,
{
    if n > 0 {
        lemma_bare_end(t, p + 1, n - 1);
    }
}

proof fn lemma_quote_end(t: Seq<char>, p: int, n: int)
    requires
        0 <= p,
        0 <= n,
        p + n < t.len(),
        forall|k: int| p <= k < p + n ==> t[k] != '"',
        t[p + n] == '"',
    ensures
        quote_end(t, p) == p + n,
    decreases n,
{
    if n > 0 {
        lemma_quote_end(t, p + 1, n - 1);
    }
}

proof fn lemma_skip_items(t: Seq<char>, p: int, n: int)
    requires
        0 <= p,
        0 <= n,
        p + n < t.len(),
        forall|k: int| p <= k < p + n ==> is_space(t[k]),
    ensures
        parse_items(t, p) == parse_items(t, p + n),
    decreases n,
{
    if n > 0 {
        lemma_skip_items(t, p + 1, n - 1);
    }
}

proof fn lemma_separator(i: int, c: Tree, own: Option<usize>, rules: Map<Seq<char>, usize>, d: nat)
    ensures
        forall|k: int|
            0 <= k < separator(i, c, own, rules, d).len() ==> is_space(
                #[trigger] separator(i, c, own, rules, d)[k],
            ),
        i != 0 ==> separator(i, c, own, rules, d).len() > 0,
        i != 0 ==> !is_bare(separator(i, c, own, rules, d)[0]),
{
    let s = separator(i, c, own, rules, d);
    if i != 0 && (rule_of(c, rules) is Some || (own is Some && i > own->0)) {
        assert forall|k: int| 0 <= k < s.len() implies is_space(#[trigger] s[k]) by {
            if k > 0 {
                assert(s[k] == spaces(2 * (d + 1))[k - 1]);
            }
        }
    }
}

proof fn lemma_first_char(t: Tree, rules: Map<Seq<char>, usize>, d: nat)
    requires
        valid(t),
    ensures
        render(t, rules, d).len() > 0,
        !is_space(render(t, rules, d)[0]),
        render(t, rules, d)[0] != ')',
{
    match t {
        Tree::Atom(a) => {
            if !needs_quotes(a) {
                assert(a[0] != ' ' && a[0] != ')');
            }
        },
        _ => {},
    }
}

proof fn lemma_parse_value(
    t: Seq<char>,
    p: int,
    x: Tree,
    rules: Map<Seq<char>, usize>,
    d: nat,
)
    requires
        valid(x),
        holds_at(t, p, render(x, rules, d)),
        p + render(x, rules, d).len() == t.len() || !is_bare(
            t[p + render(x, rules, d).len()],
        ),
    ensures
        parse_value(t, p) == Step::Done(x, p + render(x, rules, d).len()),
    decreases x, 0nat,
{
    let s = render(x, rules, d);
    lemma_first_char(x, rules, d);
    lemma_holds_index(t, p, s, 0);
    match x {
        Tree::Atom(a) => {
            if needs_quotes(a) {
                assert forall|k: int| p + 1 <= k < p + 1 + a.len() implies t[k] != '"' by {
                    lemma_holds_index(t, p, s, k - p);
                }
                lemma_holds_index(t, p, s, a.len() + 1 as int);
                lemma_quote_end(t, p + 1, a.len() as int);
                lemma_holds_part(t, p, s, 1, a.len() as int);
                assert(s.subrange(1, 1 + a.len() as int) =~= a);
            } else {
                assert forall|k: int| p <= k < p + a.len() implies is_bare(t[k]) by {
                    lemma_holds_index(t, p, s, k - p);
                }
                lemma_bare_end(t, p, a.len() as int);
                assert(t.subrange(p, p + a.len()) == a);
            }
        },
        Tree::List(items) => {
            let own = rule_of(x, rules);
            let inner = render_items(items, 0, own, rules, d);
            assert(s == seq!['('] + inner + seq![')']);
            lemma_holds_part(t, p, s, 1, inner.len() as int);
            assert(s.subrange(1, 1 + inner.len() as int) =~= inner);
            lemma_holds_index(t, p, s, inner.len() + 1 as int);
            lemma_parse_items(t, p + 1, items, 0, own, rules, d);
        },
        Tree::Empty => {},
    }
}

proof fn lemma_parse_items(
    t: Seq<char>,
    p: int,
    items: Seq<Tree>,
    i: int,
    own: Option<usize>,
    rules: Map<Seq<char>, usize>,
    d: nat,
)
    requires
        valid_items(items),
        i >= 0,
        holds_at(t, p, render_items(items, i, own, rules, d)),
        p + render_items(items, i, own, rules, d).len() < t.len(),
        t[p + render_items(items, i, own, rules, d).len()] == ')',
    ensures
        parse_items(t, p) == Step::Done(items, p + render_items(items, i, own, rules, d).len() + 1),
    decreases items, 1nat,
{
    let s = render_items(items, i, own, rules, d);
    if items.len() == 0 {
        assert(items =~= Seq::<Tree>::empty());
    } else {
        let x = items[0];
        let rest = items.subrange(1, items.len() as int);
        let sep = separator(i, x, own, rules, d);
        let xs = render(x, rules, d + 1);
        let rs = render_items(rest, i + 1, own, rules, d);
        assert(s == sep + xs + rs);
        lemma_separator(i, x, own, rules, d);
        assert forall|k: int| p <= k < p + sep.len() implies is_space(t[k]) by {
            lemma_holds_index(t, p, s, k - p);
            assert(s[k - p] == sep[k - p]);
        }
        lemma_skip_items(t, p, sep.len() as int);
        let q = p + sep.len();
        lemma_holds_part(t, p, s, sep.len() as int, xs.len() as int);
        assert(s.subrange(sep.len() as int, (sep.len() + xs.len()) as int) =~= xs);
        lemma_holds_part(t, p, s, (sep.len() + xs.len()) as int, rs.len() as int);
        assert(s.subrange((sep.len() + xs.len()) as int, s.len() as int) =~= rs);
        lemma_first_char(x, rules, d + 1);
        lemma_holds_index(t, q, xs, 0);
        let e = q + xs.len();
        if rest.len() > 0 {
            lemma_separator(i + 1, rest[0], own, rules, d);
            assert(rs[0] == separator(i + 1, rest[0], own, rules, d)[0]);
            lemma_holds_index(t, e, rs, 0);
        }
        lemma_parse_value(t, q, x, rules, d + 1);
        lemma_parse_items(t, e, rest, i + 1, own, rules, d);
        assert(seq![x] + rest =~= items);
    }
}

/// A tree that the parser can give back comes back from its own text,
/// whatever the formatting rules.
pub proof fn lemma_parse_render(t: Tree, rules: Map<Seq<char>, usize>)
    requires
        valid_top(t),
    ensures
        parse_text(render(t, rules, 0)) == Ok::<Tree, (crate::parser::ParseFail, int)>(t),
{
    let s = render(t, rules, 0);
    if !(t is Empty) {
        lemma_first_char(t, rules, 0);
        assert(s.subrange(0, s.len() as int) =~= s);
        lemma_parse_value(s, 0, t, rules, 0);
    }
}

/// Rendering a tree on one line and parsing the text gives a tree that
/// renders to the same text.
pub proof fn law_round_trip_plain(t: Tree, text: Seq<char>)
    requires
        valid_top(t),
        text == render_plain(t),
    ensures
        parse_text(text) matches Ok(u) && render_plain(u) == text,
{
    lemma_parse_render(t, Map::empty());
}

/// Text laid out by formatting rules comes back exactly, indentation
/// included, when it is parsed and rendered again under the same rules.
pub proof fn law_round_trip_rules(t: Tree, rules: Map<Seq<char>, usize>)
    requires
        valid_top(t),
    ensures
        parse_text(render(t, rules, 0)) matches Ok(u) && render(u, rules, 0) == render(
            t,
            rules,
            0,
        ),
{
    lemma_parse_render(t, rules);
}

/// Rendering, parsing and rendering again gives the first rendering.
pub proof fn law_idempotent(t: Tree)
    requires
        valid_top(t),
    ensures
        parse_text(render_plain(t)) matches Ok(u) && render_plain(u) == render_plain(t),
{
    lemma_parse_render(t, Map::empty());
}

/// An atom is written as it is exactly when it is not empty and holds no
/// space and no bracket; otherwise it is quoted. Either way the parser gives
/// the atom back without quotes.
pub proof fn law_quoting(a: Seq<char>)
    requires
        atom_ok(a),
    ensures
        (render_plain(Tree::Atom(a)) == a) <==> !needs_quotes(a),
        parse_text(render_plain(Tree::Atom(a))) == Ok::<Tree, (crate::parser::ParseFail, int)>(
            Tree::Atom(a),
        ),
{
    if needs_quotes(a) {
        assert(render_plain(Tree::Atom(a)).len() == a.len() + 2);
    }
    lemma_parse_render(Tree::Atom(a), Map::empty());
}

/// No text parses to `Empty`, and `Empty` renders to no text.
pub proof fn law_empty()
    ensures
        parse_text(Seq::empty()) == Ok::<Tree, (crate::parser::ParseFail, int)>(Tree::Empty),
        render_plain(Tree::Empty) == Seq::<char>::empty(),
{
}

proof fn lemma_quote_open(t: Seq<char>, p: int)
    requires
        0 <= p <= t.len(),
        forall|k: int| p <= k < t.len() ==> t[k] != '"',
    ensures
        quote_end(t, p) == t.len(),
    decreases t.len() - p,
{
    if p < t.len() {
        lemma_quote_open(t, p + 1);
    }
}

proof fn lemma_col_last_line(t: Seq<char>, k: int, p: int)
    requires
        0 <= k <= p <= t.len(),
        k == 0 || t[k - 1] == '\n',
        forall|j: int| k <= j < p ==> t[j] != '\n',
    ensures
        col_of(t, p) == p - k + 1,
    decreases p,
{
    if p > k {
        lemma_col_last_line(t, k, p - 1);
    }
}

/// Any text without quotes, put between quotes, parses to an atom of that
/// text: there is no escape processing, and spaces, brackets and line
/// breaks stay in the atom.
pub proof fn law_quoted_atom(a: Seq<char>)
    requires
        forall|i: int| 0 <= i < a.len() ==> a[i] != '"',
    ensures
        parse_text(seq!['"'] + a + seq!['"']) == Ok::<Tree, (ParseFail, int)>(Tree::Atom(a)),
{
    let t = seq!['"'] + a + seq!['"'];
    assert(t[0] == '"');
    assert forall|k: int| 1 <= k < 1 + a.len() implies t[k] != '"' by {
        assert(t[k] == a[k - 1]);
    }
    lemma_quote_end(t, 1, a.len() as int);
    assert(t.subrange(1, 1 + a.len() as int) =~= a);
}

/// A quote that is never closed fails as the end of the input, at the end of
/// the text: on its last line, one column past that line's characters.
pub proof fn law_unterminated_quote(body: Seq<char>, k: int)
    requires
        forall|i: int| 0 <= i < body.len() ==> body[i] != '"',
        0 <= k <= body.len() + 1,
        k == 0 || (seq!['"'] + body)[k - 1] == '\n',
        forall|j: int| k <= j < body.len() + 1 ==> (seq!['"'] + body)[j] != '\n',
    ensures
        parse_text(seq!['"'] + body) == Err::<Tree, (ParseFail, int)>(
            (ParseFail::EndOfInput, body.len() + 1 as int),
        ),
        col_of(seq!['"'] + body, body.len() + 1 as int) == body.len() + 1 - k + 1,
{
    let t = seq!['"'] + body;
    assert(t[0] == '"');
    assert forall|j: int| 1 <= j < t.len() implies t[j] != '"' by {
        assert(t[j] == body[j - 1]);
    }
    lemma_quote_open(t, 1);
    lemma_col_last_line(t, k, t.len() as int);
}

} // verus!
