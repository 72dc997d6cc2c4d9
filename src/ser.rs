use vstd::prelude::*;
use vstd::string::StringExecFns;
use crate::error::SexpError;
use crate::formatter::Rules;
use crate::parser::chars_of;
use crate::{Sexp, Tree, views, lemma_views_index};

verus! {

/// An atom must be quoted when it is empty or holds a space or a bracket.
pub open spec fn needs_quotes(a: Seq<char>) -> bool {
    a.len() == 0 || exists|i: int| 0 <= i < a.len() && (a[i] == ' ' || a[i] == '(' || a[i] == ')')
}

/// The text of an atom.
pub open spec fn atom_text(a: Seq<char>) -> Seq<char> {
    if needs_quotes(a) {
        seq!['"'] + a + seq!['"']
    } else {
        a
    }
}

pub open spec fn spaces(n: nat) -> Seq<char> {
    Seq::new(n, |i: int| ' ')
}

/// The tag of a list: the text of its first item, when that is an atom.
pub open spec fn tag_of(t: Tree) -> Option<Seq<char>> {
    match t {
        Tree::List(items) => if items.len() > 0 && items[0] is Atom {
            Some(items[0]->Atom_0)
        } else {
            None
        },
        _ => None,
    }
}

/// The rule that applies to a value: the one for its tag, if any.
pub open spec fn rule_of(t: Tree, rules: Map<Seq<char>, usize>) -> Option<usize> {
    match tag_of(t) {
        Some(tag) => if rules.contains_key(tag) {
            Some(rules[tag])
        } else {
            None
        },
        None => None,
    }
}

/// What stands before item `i` of a list at depth `d` whose own rule is
/// `own`: nothing before the first item; a line break and indentation before
/// a list that has a rule, and before the items past the ones that the
/// rule keeps on the tag's line; else one space.
pub open spec fn separator(
    i: int,
    c: Tree,
    own: Option<usize>,
    rules: Map<Seq<char>, usize>,
    d: nat,
) -> Seq<char> {
    if i == 0 {
        Seq::empty()
    } else if rule_of(c, rules) is Some || (own is Some && i > own->0) {
        seq!['\n'] + spaces(2 * (d + 1))
    } else {
        seq![' ']
    }
}

/// The text of a value at depth `d`.
pub open spec fn render(t: Tree, rules: Map<Seq<char>, usize>, d: nat) -> Seq<char>
    decreases t,
{
    match t {
        Tree::Atom(a) => atom_text(a),
        Tree::Empty => Seq::empty(),
        Tree::List(items) => seq!['('] + render_items(items, 0, rule_of(t, rules), rules, d)
            + seq![')'],
    }
}

/// The text of the items of a list at depth `d`, the first of them being
/// item `i`.
pub open spec fn render_items(
    items: Seq<Tree>,
    i: int,
    own: Option<usize>,
    rules: Map<Seq<char>, usize>,
    d: nat,
) -> Seq<char>
    decreases items,
{
    if items.len() == 0 {
        Seq::empty()
    } else {
        separator(i, items[0], own, rules, d) + render(items[0], rules, d + 1) + render_items(
            items.subrange(1, items.len() as int),
            i + 1,
            own,
            rules,
            d,
        )
    }
}

/// The text of a value with no rules: everything on one line.
pub open spec fn render_plain(t: Tree) -> Seq<char> {
    render(t, Map::empty(), 0)
}

fn needs_quotes_exec(a: &String) -> (r: bool)
    ensures
        r == needs_quotes(a@),
{
    let t = chars_of(a.as_str());
    if t.len() == 0 {
        return true;
    }
    let mut i: usize = 0;
    while i < t.len()
        invariant
            i <= t@.len(),
            t@ == a@,
            forall|j: int| 0 <= j < i ==> !(t@[j] == ' ' || t@[j] == '(' || t@[j] == ')'),
        decreases t.len() - i,
    {
        if t[i] == ' ' || t[i] == '(' || t[i] == ')' {
            return true;
        }
        i = i + 1;
    }
    false
}

pub(crate) fn push_atom(out: &mut String, a: &String)
    ensures
        final(out)@ == old(out)@ + atom_text(a@),
{
    if needs_quotes_exec(a) {
        proof {
            reveal_strlit("\"");
        }
        out.append("\"");
        out.append(a.as_str());
        out.append("\"");
        assert(final(out)@ =~= old(out)@ + atom_text(a@));
    } else {
        out.append(a.as_str());
    }
}

fn rule_for(s: &Sexp, rules: &Rules) -> (r: Option<usize>)
    ensures
        r == rule_of(s@, rules@),
{
    match s {
        Sexp::List(v) => {
            if v.len() > 0 {
                proof {
                    lemma_views_index(v@, 0);
                }
                match &v[0] {
                    Sexp::String(tag) => rules.get(tag.as_str()),
                    _ => None,
                }
            } else {
                None
            }
        },
        _ => None,
    }
}

fn render_into(out: &mut String, s: &Sexp, rules: &Rules, ind: &String, Ghost(d): Ghost<nat>)
    requires
        ind@ == spaces(2 * d),
    ensures
        final(out)@ == old(out)@ + render(s@, rules@, d),
    decreases s,
{
    match s {
        Sexp::String(a) => {
            push_atom(out, a);
        },
        Sexp::Empty => {
            assert(final(out)@ =~= old(out)@ + render(s@, rules@, d));
        },
        Sexp::List(v) => {
            proof {
                reveal_strlit("(");
                reveal_strlit(")");
                reveal_strlit("  ");
            }
            let own = rule_for(s, rules);
            let mut ind2 = ind.clone();
            ind2.append("  ");
            assert(ind2@ =~= spaces(2 * (d + 1)));
            let ghost items = views(v@);
            let ghost start = old(out)@ + seq!['('];
            out.append("(");
            let mut i: usize = 0;
            proof {
                crate::lemma_views_len(v@);
                assert(items.subrange(0, items.len() as int) =~= items);
                assert(out@ == start);
                assert(start + render_items(items, 0, own, rules@, d) =~= out@ + render_items(
                    items.subrange(0, items.len() as int),
                    0,
                    own,
                    rules@,
                    d,
                ));
            }
            while i < v.len()
                invariant
                    i <= v@.len(),
                    items == views(v@),
                    items.len() == v@.len(),
                    own == rule_of(s@, rules@),
                    ind2@ == spaces(2 * (d + 1)),
                    s@ == Tree::List(items),
                    *s == Sexp::List(*v),
                    out@ + render_items(
                        items.subrange(i as int, items.len() as int),
                        i as int,
                        own,
                        rules@,
                        d,
                    ) == start + render_items(items, 0, own, rules@, d),
                decreases v.len() - i,
            {
                let c = &v[i];
                let ghost rest = items.subrange(i as int, items.len() as int);
                proof {
                    lemma_views_index(v@, i as int);
                    assert(rest.subrange(1, rest.len() as int) =~= items.subrange(
                        i + 1,
                        items.len() as int,
                    ));
                    assert(rest[0] == c@);
                }
                let ghost before = out@;
                proof {
                    reveal_strlit(" ");
                    reveal_strlit("\n");
                    assert(decreases_to!(v => v[i as int]));
                }
                if i > 0 {
                    let cr = rule_for(c, rules);
                    let own_line = match own {
                        Some(k) => i > k,
                        None => false,
                    };
                    if cr.is_some() || own_line {
                        out.append("\n");
                        out.append(ind2.as_str());
                    } else {
                        out.append(" ");
                    }
                }
                assert(out@ =~= before + separator(i as int, c@, own, rules@, d));
                render_into(out, c, rules, &ind2, Ghost(d + 1));
                assert(before + render_items(rest, i as int, own, rules@, d) =~= out@
                    + render_items(rest.subrange(1, rest.len() as int), i + 1, own, rules@, d));
                i = i + 1;
            }
            out.append(")");
            assert(items.subrange(i as int, items.len() as int) =~= Seq::<Tree>::empty());
            assert(final(out)@ =~= old(out)@ + render(s@, rules@, d));
        },
    }
}

/// The text of a value under formatting rules.
pub fn to_string_with_rules(e: &Sexp, rules: Rules) -> (r: Result<String, SexpError>)
    ensures
        r matches Ok(s) && s@ == render(e@, rules@, 0),
{
    let mut out = String::new();
    let ind = String::new();
    assert(ind@ =~= spaces(0));
    render_into(&mut out, e, &rules, &ind, Ghost(0));
    assert(out@ =~= render(e@, rules@, 0));
    Ok(out)
}

/// The text of a value on one line.
pub fn to_string(e: &Sexp) -> (r: Result<String, SexpError>)
    ensures
        r matches Ok(s) && s@ == render_plain(e@),
{
    to_string_with_rules(e, Rules::new())
}

} // verus!
