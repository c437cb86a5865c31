//! Deterministic record flattening: a depth-first projection of a whole
//! record into sorted `key: value` pairs, independent of the source
//! object's field order.
use vstd::prelude::*;

use vstd::multiset::Multiset;
use vstd::relations::sorted_by;
use vstd::relations::total_ordering;
use vstd::seq_lib::lemma_sorted_unique;

use crate::record::scalar_string;
use crate::record::NodeView;
use crate::record::RecordNode;
use crate::text::chars_eq;
use crate::text::chars_of;
use crate::text::copy_range;
use crate::text::ends_with;
use crate::text::ends_with_chars;
use crate::text::is_control_char;
use crate::text::lex_le;
use crate::text::lemma_lex_le_total;
use crate::text::lemma_lex_le_trans;
use crate::text::lex_le_chars;
use crate::text::string_of;

verus! {

/// The ASCII whitespace characters.
pub open spec fn is_ascii_ws(c: char) -> bool {
    c == ' ' || c == '\u{9}' || c == '\u{a}' || c == '\u{c}' || c == '\u{d}'
}

/// A flattened value: every control or ASCII whitespace character shows
/// as one space.
pub open spec fn cleaned(s: Seq<char>) -> Seq<char> {
    s.map_values(
        |c: char|
            if is_control_char(c) || is_ascii_ws(c) {
                ' '
            } else {
                c
            },
    )
}

fn clean_chars(v: &Vec<char>) -> (r: Vec<char>)
    ensures
        r@ == cleaned(v@),
{
    let mut out: Vec<char> = Vec::new();
    let mut i: usize = 0;
    while i < v.len()
        invariant
            i <= v@.len(),
            out@ == cleaned(v@.subrange(0, i as int)),
        decreases v@.len() - i,
    {
        let c = v[i];
        if crate::text::control_char(c) || c == ' ' || c == '\u{9}' || c == '\u{a}' || c
            == '\u{c}' || c == '\u{d}' {
            out.push(' ');
        } else {
            out.push(c);
        }
        i = i + 1;
        proof {
            assert(out@ =~= cleaned(v@.subrange(0, i as int)));
        }
    }
    proof {
        assert(v@.subrange(0, i as int) =~= v@);
    }
    out
}

pub open spec fn attr_suffix() -> Seq<char> {
    seq!['_', 'a', 't', 't', 'r', 'i', 'b', 'u', 't', 'e', 's']
}

pub open spec fn system_key() -> Seq<char> {
    seq!['S', 'y', 's', 't', 'e', 'm']
}

pub open spec fn event_key() -> Seq<char> {
    seq!['E', 'v', 'e', 'n', 't']
}

/// The flattened (key, value) pairs below `v`, in traversal order.
/// Arrays recurse under the same parent key; objects push their key onto
/// the path stack; keys ending `_attributes` are skipped, as is a
/// `System` key directly below the root `Event` node; scalar leaves
/// contribute their cleaned display text under the nearest key.
pub open spec fn collect(stack: Seq<Seq<char>>, parent: Seq<char>, v: NodeView) -> Seq<
    (Seq<char>, Seq<char>),
>
    decreases v,
{
    match v {
        NodeView::Arr(items) => collect_items(stack, parent, items),
        NodeView::Obj(fields) => collect_fields(
            if parent.len() > 0 {
                stack.push(parent)
            } else {
                stack
            },
            fields,
        ),
        NodeView::Null => Seq::empty(),
        _ => match scalar_string(v) {
            Option::Some(t) => seq![(parent, cleaned(t))],
            Option::None => Seq::empty(),
        },
    }
}

pub open spec fn collect_items(
    stack: Seq<Seq<char>>,
    parent: Seq<char>,
    items: Seq<NodeView>,
) -> Seq<(Seq<char>, Seq<char>)>
    decreases items, items.len(),
{
    if items.len() == 0 {
        Seq::empty()
    } else {
        collect(stack, parent, items[0]) + collect_items(stack, parent, items.drop_first())
    }
}

pub open spec fn collect_fields(
    stack: Seq<Seq<char>>,
    fields: Seq<(Seq<char>, NodeView)>,
) -> Seq<(Seq<char>, Seq<char>)>
    decreases fields, fields.len(),
{
    if fields.len() == 0 {
        Seq::empty()
    } else {
        let rest = collect_fields(stack, fields.drop_first());
        if ends_with(fields[0].0, attr_suffix()) || (fields[0].0 == system_key() && stack
            =~= seq![event_key()]) {
            rest
        } else {
            collect(stack, fields[0].0, fields[0].1) + rest
        }
    }
}

/// The views of collected exec pairs.
pub open spec fn pairs_view(ps: Seq<(Vec<char>, Vec<char>)>) -> Seq<(Seq<char>, Seq<char>)> {
    Seq::new(ps.len(), |i: int| (ps[i].0@, ps[i].1@))
}

fn collect_into(
    stack: &mut Vec<Vec<char>>,
    parent: &Vec<char>,
    v: &RecordNode,
    out: &mut Vec<(Vec<char>, Vec<char>)>,
)
    ensures
        final(stack)@ == old(stack)@,
        pairs_view(final(out)@) == pairs_view(old(out)@) + collect(
            old(stack).deep_view(),
            parent@,
            v@,
        ),
    decreases *v,
{
    let ghost sv = stack.deep_view();
    match v {
        RecordNode::Arr(items) => {
            proof {
                crate::record::lemma_views_of_nodes(items@);
                assert(crate::record::views_of_nodes(items@).skip(0)
                    =~= crate::record::views_of_nodes(items@));
            }
            collect_items_into(stack, parent, items, 0, out);
        },
        RecordNode::Obj(fields) => {
            let pushed = parent.len() > 0;
            if pushed {
                let p = copy_range(parent, 0, parent.len());
                proof {
                    assert(p@ =~= parent@);
                }
                let ghost sb = stack@;
                stack.push(p);
                proof {
                    assert forall|k: int|
                        0 <= k < stack.deep_view().len() implies stack.deep_view()[k]
                        == sv.push(parent@)[k] by {
                        if k < sb.len() - 1 {
                        }
                        assert(stack.deep_view()[k] == stack@[k]@);
                    }
                    assert(stack.deep_view() =~= sv.push(parent@));
                }
            }
            proof {
                crate::record::lemma_views_of_fields(fields@);
                assert(crate::record::views_of_fields(fields@).skip(0)
                    =~= crate::record::views_of_fields(fields@));
            }
            collect_fields_into(stack, fields, 0, out);
            if pushed {
                stack.pop();
                proof {
                    assert(stack@ =~= old(stack)@);
                }
            }
        },
        RecordNode::Null => {
            proof {
                assert(pairs_view(out@) =~= pairs_view(out@) + collect(sv, parent@, v@));
            }
        },
        _ => {
            match crate::record::scalar_chars(v) {
                Option::Some(t) => {
                    let cl = clean_chars(&t);
                    let k = copy_range(parent, 0, parent.len());
                    proof {
                        assert(k@ =~= parent@);
                    }
                    let ghost before = pairs_view(out@);
                    out.push((k, cl));
                    proof {
                        assert(pairs_view(out@) =~= before + collect(sv, parent@, v@));
                    }
                },
                Option::None => {
                    proof {
                        assert(pairs_view(out@) =~= pairs_view(out@) + collect(
                            sv,
                            parent@,
                            v@,
                        ));
                    }
                },
            }
        },
    }
}

fn collect_items_into(
    stack: &mut Vec<Vec<char>>,
    parent: &Vec<char>,
    items: &Vec<RecordNode>,
    i: usize,
    out: &mut Vec<(Vec<char>, Vec<char>)>,
)
    requires
        i <= items@.len(),
    ensures
        final(stack)@ == old(stack)@,
        pairs_view(final(out)@) == pairs_view(old(out)@) + collect_items(
            old(stack).deep_view(),
            parent@,
            crate::record::views_of_nodes(items@).skip(i as int),
        ),
    decreases items@, items@.len() - i,
{
    proof {
        crate::record::lemma_views_of_nodes(items@);
    }
    let ghost vs = crate::record::views_of_nodes(items@).skip(i as int);
    if i < items.len() {
        proof {
            assert(vs[0] == crate::record::node_view(items@[i as int]));
            assert(vs.drop_first() =~= crate::record::views_of_nodes(items@).skip(i + 1));
        }
        collect_into(stack, parent, &items[i], out);
        collect_items_into(stack, parent, items, i + 1, out);
        proof {
            assert(pairs_view(final(out)@) =~= pairs_view(old(out)@) + collect_items(
                old(stack).deep_view(),
                parent@,
                vs,
            ));
        }
    } else {
        proof {
            assert(vs =~= Seq::<NodeView>::empty());
            assert(pairs_view(out@) =~= pairs_view(out@) + collect_items(
                old(stack).deep_view(),
                parent@,
                vs,
            ));
        }
    }
}

fn collect_fields_into(
    stack: &mut Vec<Vec<char>>,
    fields: &Vec<(String, RecordNode)>,
    i: usize,
    out: &mut Vec<(Vec<char>, Vec<char>)>,
)
    requires
        i <= fields@.len(),
    ensures
        final(stack)@ == old(stack)@,
        pairs_view(final(out)@) == pairs_view(old(out)@) + collect_fields(
            old(stack).deep_view(),
            crate::record::views_of_fields(fields@).skip(i as int),
        ),
    decreases fields@, fields@.len() - i,
{
    proof {
        crate::record::lemma_views_of_fields(fields@);
    }
    let ghost vs = crate::record::views_of_fields(fields@).skip(i as int);
    if i < fields.len() {
        proof {
            assert(vs[0] == (fields@[i as int].0@, crate::record::node_view(
                fields@[i as int].1,
            )));
            assert(vs.drop_first() =~= crate::record::views_of_fields(fields@).skip(i + 1));
        }
        let kc = chars_of(fields[i].0.as_str());
        let mut attr: Vec<char> = Vec::new();
        attr.push('_');
        attr.push('a');
        attr.push('t');
        attr.push('t');
        attr.push('r');
        attr.push('i');
        attr.push('b');
        attr.push('u');
        attr.push('t');
        attr.push('e');
        attr.push('s');
        proof {
            assert(attr@ =~= attr_suffix());
        }
        let mut sysk: Vec<char> = Vec::new();
        sysk.push('S');
        sysk.push('y');
        sysk.push('s');
        sysk.push('t');
        sysk.push('e');
        sysk.push('m');
        proof {
            assert(sysk@ =~= system_key());
        }
        let mut evk: Vec<char> = Vec::new();
        evk.push('E');
        evk.push('v');
        evk.push('e');
        evk.push('n');
        evk.push('t');
        proof {
            assert(evk@ =~= event_key());
        }
        let mut skip_entry = ends_with_chars(&kc, &attr);
        if !skip_entry && chars_eq(&kc, &sysk) && stack.len() == 1 {
            if chars_eq(&stack[0], &evk) {
                proof {
                    assert(stack.deep_view()[0] == stack@[0]@);
                    assert(stack.deep_view() =~= seq![event_key()]);
                }
                skip_entry = true;
            }
        }
        proof {
            if !skip_entry {
                if vs[0].0 == system_key() && stack.deep_view() =~= seq![event_key()] {
                    assert(stack.deep_view().len() == 1);
                    assert(stack.deep_view()[0] == stack@[0]@);
                    assert(stack@[0]@ == event_key());
                    assert(false);
                }
            }
        }
        if !skip_entry {
            collect_into(stack, &kc, &fields[i].1, out);
        }
        collect_fields_into(stack, fields, i + 1, out);
        proof {
            assert(pairs_view(final(out)@) =~= pairs_view(old(out)@) + collect_fields(
                old(stack).deep_view(),
                vs,
            ));
        }
    } else {
        proof {
            assert(vs =~= Seq::<(Seq<char>, NodeView)>::empty());
            assert(pairs_view(out@) =~= pairs_view(out@) + collect_fields(
                old(stack).deep_view(),
                vs,
            ));
        }
    }
}

/// The order flattened pairs are reported in: by key, then by value.
pub open spec fn pair_le(x: (Seq<char>, Seq<char>), y: (Seq<char>, Seq<char>)) -> bool {
    if x.0 != y.0 {
        lex_le(x.0, y.0)
    } else {
        lex_le(x.1, y.1)
    }
}

/// The order as a relation value, for sorting.
pub open spec fn pair_ord() -> spec_fn((Seq<char>, Seq<char>), (Seq<char>, Seq<char>)) -> bool {
    |x: (Seq<char>, Seq<char>), y: (Seq<char>, Seq<char>)| pair_le(x, y)
}

pub proof fn lemma_pair_le_total(x: (Seq<char>, Seq<char>), y: (Seq<char>, Seq<char>))
    ensures
        pair_le(x, y) || pair_le(y, x),
        pair_le(x, y) && pair_le(y, x) ==> x == y,
{
    lemma_lex_le_total(x.0, y.0);
    lemma_lex_le_total(x.1, y.1);
}

pub proof fn lemma_pair_le_trans(
    x: (Seq<char>, Seq<char>),
    y: (Seq<char>, Seq<char>),
    z: (Seq<char>, Seq<char>),
)
    requires
        pair_le(x, y),
        pair_le(y, z),
    ensures
        pair_le(x, z),
{
    lemma_lex_le_total(x.0, y.0);
    lemma_lex_le_total(y.0, z.0);
    if x.0 == y.0 && y.0 == z.0 {
        lemma_lex_le_trans(x.1, y.1, z.1);
    } else if x.0 == y.0 {
    } else if y.0 == z.0 {
    } else {
        lemma_lex_le_trans(x.0, y.0, z.0);
        if x.0 == z.0 {
            lemma_lex_le_total(x.0, y.0);
        }
    }
}

/// The report order is a total order.
pub proof fn lemma_pair_ord_total()
    ensures
        total_ordering(pair_ord()),
{
    let r = pair_ord();
    assert forall|x: (Seq<char>, Seq<char>)| #[trigger] r(x, x) by {
        lemma_pair_le_total(x, x);
    }
    assert forall|x: (Seq<char>, Seq<char>), y: (Seq<char>, Seq<char>)| #[trigger]
        r(x, y) && #[trigger] r(y, x) implies x == y by {
        lemma_pair_le_total(x, y);
    }
    assert forall|
        x: (Seq<char>, Seq<char>),
        y: (Seq<char>, Seq<char>),
        z: (Seq<char>, Seq<char>),
    |
        #[trigger] r(x, y) && #[trigger] r(y, z) implies r(x, z) by {
        lemma_pair_le_trans(x, y, z);
    }
    assert forall|x: (Seq<char>, Seq<char>), y: (Seq<char>, Seq<char>)| #[trigger]
        r(x, y) || #[trigger] r(y, x) by {
        lemma_pair_le_total(x, y);
    }
}

fn pair_le_exec(a: &(Vec<char>, Vec<char>), b: &(Vec<char>, Vec<char>)) -> (r: bool)
    ensures
        r == pair_le((a.0@, a.1@), (b.0@, b.1@)),
{
    if chars_eq(&a.0, &b.0) {
        lex_le_chars(&a.1, &b.1)
    } else {
        lex_le_chars(&a.0, &b.0)
    }
}

/// Sort flattened pairs by key, then value.
fn sort_pairs(input: Vec<(Vec<char>, Vec<char>)>) -> (r: Vec<(Vec<char>, Vec<char>)>)
    ensures
        pairs_view(r@) == pairs_view(input@).sort_by(pair_ord()),
{
    broadcast use vstd::seq_lib::group_to_multiset_ensures;

    let ghost iv = pairs_view(input@);
    let ghost ord = pair_ord();
    let mut rest = input;
    let mut out: Vec<(Vec<char>, Vec<char>)> = Vec::new();
    proof {
        lemma_pair_ord_total();
        assert(pairs_view(out@) =~= Seq::<(Seq<char>, Seq<char>)>::empty());
        assert(pairs_view(out@).to_multiset().add(pairs_view(rest@).to_multiset())
            =~= iv.to_multiset());
    }
    while rest.len() > 0
        invariant
            ord == pair_ord(),
            total_ordering(ord),
            pairs_view(out@).to_multiset().add(pairs_view(rest@).to_multiset())
                == iv.to_multiset(),
            sorted_by(pairs_view(out@), ord),
            forall|a: int, b: int|
                0 <= a < out@.len() && 0 <= b < rest@.len() ==> pair_le(
                    #[trigger] pairs_view(out@)[a],
                    #[trigger] pairs_view(rest@)[b],
                ),
        decreases rest@.len(),
    {
        let ghost rv = pairs_view(rest@);
        proof {
            lemma_pair_le_total(rv[0], rv[0]);
        }
        let mut m: usize = 0;
        let mut j: usize = 1;
        while j < rest.len()
            invariant
                rv == pairs_view(rest@),
                rv.len() == rest@.len(),
                m < j <= rest@.len() || (j <= rest@.len() && m == 0),
                m < rest@.len(),
                forall|k: int| 0 <= k < j ==> pair_le(rv[m as int], #[trigger] rv[k]),
            decreases rest@.len() - j,
        {
            proof {
                assert(rv[j as int] == (rest@[j as int].0@, rest@[j as int].1@));
                assert(rv[m as int] == (rest@[m as int].0@, rest@[m as int].1@));
            }
            if pair_le_exec(&rest[j], &rest[m]) {
                proof {
                    let oldm = m as int;
                    assert forall|k: int| 0 <= k < j + 1 implies pair_le(
                        rv[j as int],
                        #[trigger] rv[k],
                    ) by {
                        if k < j {
                            lemma_pair_le_trans(rv[j as int], rv[oldm], rv[k]);
                        } else {
                            lemma_pair_le_total(rv[j as int], rv[j as int]);
                        }
                    }
                }
                m = j;
            } else {
                proof {
                    lemma_pair_le_total(rv[j as int], rv[m as int]);
                }
            }
            j = j + 1;
        }
        proof {
            if rv.len() == 1 {
                lemma_pair_le_total(rv[0], rv[0]);
            }
            assert(forall|k: int| 0 <= k < rv.len() ==> pair_le(rv[m as int], #[trigger] rv[k]));
        }
        let picked = rest.remove(m);
        let ghost pv = (picked.0@, picked.1@);
        let ghost outv = pairs_view(out@);
        out.push(picked);
        proof {
            assert(pv == rv[m as int]);
            assert(pairs_view(out@) =~= outv.push(pv));
            assert(pairs_view(rest@) =~= rv.remove(m as int));
            vstd::seq_lib::to_multiset_build(outv, pv);
            vstd::seq_lib::to_multiset_remove(rv, m as int);
            assert(pairs_view(out@).to_multiset() =~= outv.to_multiset().insert(pv));
            assert(pairs_view(rest@).to_multiset() =~= rv.to_multiset().remove(pv));
            assert(rv.to_multiset().count(pv) > 0) by {
                assert(rv[m as int] == pv);
                assert(rv.contains(pv));
                vstd::seq_lib::to_multiset_contains(rv, pv);
            }
            assert(pairs_view(out@).to_multiset().add(pairs_view(rest@).to_multiset())
                =~= outv.to_multiset().add(rv.to_multiset()));
            assert forall|a: int, b: int|
                0 <= a < out@.len() && 0 <= b < rest@.len() implies pair_le(
                #[trigger] pairs_view(out@)[a],
                #[trigger] pairs_view(rest@)[b],
            ) by {
                let rvb = pairs_view(rest@)[b];
                if b < m {
                    assert(rvb == rv[b]);
                } else {
                    assert(rvb == rv[b + 1]);
                }
                if a < outv.len() {
                    assert(pairs_view(out@)[a] == outv[a]);
                } else {
                    assert(pairs_view(out@)[a] == pv);
                }
            }
            assert(sorted_by(pairs_view(out@), ord));
        }
    }
    proof {
        assert(pairs_view(rest@) =~= Seq::<(Seq<char>, Seq<char>)>::empty());
        assert(pairs_view(rest@).to_multiset() =~= Multiset::<(Seq<char>, Seq<char>)>::empty());
        assert(pairs_view(out@).to_multiset() =~= iv.to_multiset());
        iv.lemma_sort_by_ensures(ord);
        lemma_sorted_unique(pairs_view(out@), iv.sort_by(ord), ord);
    }
    out
}

/// The flattened summary text: `key: value` entries joined by ` ¦ `.
pub open spec fn rendered(ps: Seq<(Seq<char>, Seq<char>)>) -> Seq<char>
    decreases ps.len(),
{
    if ps.len() == 0 {
        Seq::empty()
    } else if ps.len() == 1 {
        entry_text(ps[0])
    } else {
        entry_text(ps[0]) + seq![' ', '\u{a6}', ' '] + rendered(ps.drop_first())
    }
}

pub open spec fn entry_text(p: (Seq<char>, Seq<char>)) -> Seq<char> {
    p.0 + seq![':', ' '] + p.1
}

/// The deterministic flat summary of a whole record: every reachable
/// scalar as `key: value`, sorted by key then value, whatever order the
/// source object's fields came in.
pub open spec fn record_summary(rv: NodeView) -> Seq<char> {
    rendered(collect(Seq::empty(), Seq::empty(), rv).sort_by(pair_ord()))
}

/// Flatten a record into its deterministic sorted summary text.
pub fn create_recordinfos(record: &RecordNode) -> (r: String)
    ensures
        r@ == record_summary(record@),
{
    let mut stack: Vec<Vec<char>> = Vec::new();
    let parent: Vec<char> = Vec::new();
    let mut pairs: Vec<(Vec<char>, Vec<char>)> = Vec::new();
    proof {
        assert(stack.deep_view() =~= Seq::<Seq<char>>::empty());
        assert(parent@ =~= Seq::<char>::empty());
    }
    collect_into(&mut stack, &parent, record, &mut pairs);
    proof {
        assert(pairs_view(pairs@) =~= collect(Seq::empty(), Seq::empty(), record@));
    }
    let sorted = sort_pairs(pairs);
    let ghost sv = pairs_view(sorted@);
    let mut outc: Vec<char> = Vec::new();
    let mut j: usize = 0;
    while j < sorted.len()
        invariant
            j <= sorted@.len(),
            sv == pairs_view(sorted@),
            sv.len() == sorted@.len(),
            j == 0 ==> outc@ == Seq::<char>::empty(),
            0 < j < sv.len() ==> rendered(sv) == outc@ + seq![' ', '\u{a6}', ' '] + rendered(
                sv.skip(j as int),
            ),
            j == sv.len() && j > 0 ==> outc@ == rendered(sv),
        decreases sv.len() - j,
    {
        let ghost pre = outc@;
        if j > 0 {
            outc.push(' ');
            outc.push('\u{a6}');
            outc.push(' ');
        }
        let mut kc = copy_range(&sorted[j].0, 0, sorted[j].0.len());
        outc.append(&mut kc);
        outc.push(':');
        outc.push(' ');
        let mut vc = copy_range(&sorted[j].1, 0, sorted[j].1.len());
        outc.append(&mut vc);
        proof {
            assert(sorted@[j as int].0@.subrange(0, sorted@[j as int].0@.len() as int)
                =~= sorted@[j as int].0@);
            assert(sorted@[j as int].1@.subrange(0, sorted@[j as int].1@.len() as int)
                =~= sorted@[j as int].1@);
            assert(sv[j as int] == (sorted@[j as int].0@, sorted@[j as int].1@));
            if j == 0 {
                assert(outc@ =~= entry_text(sv[0]));
                if sv.len() > 1 {
                    assert(rendered(sv) == entry_text(sv[0]) + seq![' ', '\u{a6}', ' ']
                        + rendered(sv.skip(1)));
                    assert(rendered(sv) =~= outc@ + seq![' ', '\u{a6}', ' '] + rendered(
                        sv.skip(1),
                    ));
                } else {
                    assert(rendered(sv) == entry_text(sv[0]));
                }
            } else {
                let tail = sv.skip(j as int);
                assert(rendered(sv) == pre + seq![' ', '\u{a6}', ' '] + rendered(tail));
                assert(tail[0] == sv[j as int]);
                if tail.len() > 1 {
                    assert(rendered(tail) == entry_text(tail[0]) + seq![' ', '\u{a6}', ' ']
                        + rendered(tail.skip(1)));
                    assert(tail.skip(1) =~= sv.skip(j + 1));
                    assert(rendered(sv) =~= outc@ + seq![' ', '\u{a6}', ' '] + rendered(
                        sv.skip(j + 1),
                    ));
                } else {
                    assert(rendered(tail) == entry_text(tail[0]));
                    assert(outc@ =~= rendered(sv));
                }
            }
        }
        j = j + 1;
    }
    proof {
        if sv.len() == 0 {
            assert(rendered(sv) =~= Seq::<char>::empty());
        }
    }
    string_of(&outc)
}


pub proof fn lemma_collect_fields_concat(
    stack: Seq<Seq<char>>,
    a: Seq<(Seq<char>, NodeView)>,
    b: Seq<(Seq<char>, NodeView)>,
)
    ensures
        collect_fields(stack, a + b) == collect_fields(stack, a) + collect_fields(stack, b),
    decreases a.len(),
{
    if a.len() == 0 {
        assert(a + b =~= b);
        assert(collect_fields(stack, a) + collect_fields(stack, b) =~= collect_fields(
            stack,
            b,
        ));
    } else {
        assert((a + b)[0] == a[0]);
        assert((a + b).drop_first() =~= a.drop_first() + b);
        lemma_collect_fields_concat(stack, a.drop_first(), b);
        assert(collect_fields(stack, a + b) =~= collect_fields(stack, a) + collect_fields(
            stack,
            b,
        ));
    }
}

pub proof fn lemma_collect_items_concat(
    stack: Seq<Seq<char>>,
    parent: Seq<char>,
    a: Seq<NodeView>,
    b: Seq<NodeView>,
)
    ensures
        collect_items(stack, parent, a + b) == collect_items(stack, parent, a) + collect_items(
            stack,
            parent,
            b,
        ),
    decreases a.len(),
{
    if a.len() == 0 {
        assert(a + b =~= b);
        assert(collect_items(stack, parent, a) + collect_items(stack, parent, b)
            =~= collect_items(stack, parent, b));
    } else {
        assert((a + b)[0] == a[0]);
        assert((a + b).drop_first() =~= a.drop_first() + b);
        lemma_collect_items_concat(stack, parent, a.drop_first(), b);
        assert(collect_items(stack, parent, a + b) =~= collect_items(stack, parent, a)
            + collect_items(stack, parent, b));
    }
}

/// Array elements flatten under their shared parent key: appending one
/// element appends exactly that element's pairs, under the same key.
pub proof fn lemma_array_shares_parent(
    stack: Seq<Seq<char>>,
    parent: Seq<char>,
    items: Seq<NodeView>,
    x: NodeView,
)
    ensures
        collect(stack, parent, NodeView::Arr(items.push(x))) == collect(
            stack,
            parent,
            NodeView::Arr(items),
        ) + collect(stack, parent, x),
{
    assert(items.push(x) =~= items + seq![x]);
    lemma_collect_items_concat(stack, parent, items, seq![x]);
    assert(seq![x].drop_first() =~= Seq::<NodeView>::empty());
    assert(collect_items(stack, parent, seq![x]) == collect(stack, parent, seq![x][0])
        + collect_items(stack, parent, seq![x].drop_first()));
    assert(collect_items(stack, parent, seq![x]) =~= collect(stack, parent, x));
}

/// A key ending `_attributes` contributes nothing: inserting such a field
/// anywhere in an object leaves its flattened pairs unchanged.
pub proof fn lemma_attributes_ignored(
    stack: Seq<Seq<char>>,
    fields: Seq<(Seq<char>, NodeView)>,
    i: int,
    k: Seq<char>,
    v: NodeView,
)
    requires
        0 <= i <= fields.len(),
        ends_with(k, attr_suffix()),
    ensures
        collect_fields(stack, fields.insert(i, (k, v))) == collect_fields(stack, fields),
{
    let ins = fields.insert(i, (k, v));
    assert(ins =~= fields.take(i) + seq![(k, v)] + fields.skip(i));
    assert(fields =~= fields.take(i) + fields.skip(i));
    lemma_collect_fields_concat(stack, fields.take(i) + seq![(k, v)], fields.skip(i));
    lemma_collect_fields_concat(stack, fields.take(i), seq![(k, v)]);
    lemma_collect_fields_concat(stack, fields.take(i), fields.skip(i));
    assert(seq![(k, v)].drop_first() =~= Seq::<(Seq<char>, NodeView)>::empty());
    assert(seq![(k, v)][0].0 == k);
    assert(collect_fields(stack, Seq::<(Seq<char>, NodeView)>::empty()) =~= Seq::<
        (Seq<char>, Seq<char>),
    >::empty());
    assert(collect_fields(stack, seq![(k, v)]) == collect_fields(
        stack,
        seq![(k, v)].drop_first(),
    ));
    assert(collect_fields(stack, seq![(k, v)]) =~= Seq::<(Seq<char>, Seq<char>)>::empty());
    assert(collect_fields(stack, ins) =~= collect_fields(stack, fields));
}

/// A `System` key directly below the root `Event` node contributes
/// nothing: inserting one leaves the flattened pairs unchanged.
pub proof fn lemma_system_ignored(fields: Seq<(Seq<char>, NodeView)>, i: int, v: NodeView)
    requires
        0 <= i <= fields.len(),
    ensures
        collect_fields(seq![event_key()], fields.insert(i, (system_key(), v)))
            == collect_fields(seq![event_key()], fields),
{
    let stack = seq![event_key()];
    let ins = fields.insert(i, (system_key(), v));
    assert(ins =~= fields.take(i) + seq![(system_key(), v)] + fields.skip(i));
    assert(fields =~= fields.take(i) + fields.skip(i));
    lemma_collect_fields_concat(stack, fields.take(i) + seq![(system_key(), v)], fields.skip(i));
    lemma_collect_fields_concat(stack, fields.take(i), seq![(system_key(), v)]);
    lemma_collect_fields_concat(stack, fields.take(i), fields.skip(i));
    assert(seq![(system_key(), v)].drop_first() =~= Seq::<(Seq<char>, NodeView)>::empty());
    assert(seq![(system_key(), v)][0].0 == system_key());
    assert(stack =~= seq![event_key()]);
    assert(collect_fields(stack, Seq::<(Seq<char>, NodeView)>::empty()) =~= Seq::<
        (Seq<char>, Seq<char>),
    >::empty());
    assert(collect_fields(stack, seq![(system_key(), v)]) == collect_fields(
        stack,
        seq![(system_key(), v)].drop_first(),
    ));
    assert(collect_fields(stack, seq![(system_key(), v)]) =~= Seq::<
        (Seq<char>, Seq<char>),
    >::empty());
    assert(collect_fields(stack, ins) =~= collect_fields(stack, fields));
}

/// The summary does not depend on the order an object hands its fields
/// over: swapping two neighbouring fields of the record changes nothing,
/// so any reordering reaches the same sorted text.
pub proof fn lemma_summary_order_independent(
    f1: Seq<(Seq<char>, NodeView)>,
    a: (Seq<char>, NodeView),
    b: (Seq<char>, NodeView),
    f2: Seq<(Seq<char>, NodeView)>,
)
    ensures
        record_summary(NodeView::Obj(f1 + seq![a, b] + f2)) == record_summary(
            NodeView::Obj(f1 + seq![b, a] + f2),
        ),
{
    broadcast use vstd::seq_lib::group_to_multiset_ensures;

    let stack = Seq::<Seq<char>>::empty();
    let ord = pair_ord();
    lemma_pair_ord_total();
    lemma_collect_fields_concat(stack, f1 + seq![a, b], f2);
    lemma_collect_fields_concat(stack, f1, seq![a, b]);
    lemma_collect_fields_concat(stack, f1 + seq![b, a], f2);
    lemma_collect_fields_concat(stack, f1, seq![b, a]);
    assert(seq![a, b] =~= seq![a] + seq![b]);
    assert(seq![b, a] =~= seq![b] + seq![a]);
    lemma_collect_fields_concat(stack, seq![a], seq![b]);
    lemma_collect_fields_concat(stack, seq![b], seq![a]);
    let ca = collect_fields(stack, seq![a]);
    let cb = collect_fields(stack, seq![b]);
    let c1 = collect_fields(stack, f1);
    let c2 = collect_fields(stack, f2);
    let left = collect_fields(stack, f1 + seq![a, b] + f2);
    let right = collect_fields(stack, f1 + seq![b, a] + f2);
    assert(left =~= c1 + (ca + cb) + c2);
    assert(right =~= c1 + (cb + ca) + c2);
    assert(left.to_multiset() =~= right.to_multiset()) by {
        vstd::seq_lib::lemma_multiset_commutative(c1 + (ca + cb), c2);
        vstd::seq_lib::lemma_multiset_commutative(c1 + (cb + ca), c2);
        vstd::seq_lib::lemma_multiset_commutative(c1, ca + cb);
        vstd::seq_lib::lemma_multiset_commutative(c1, cb + ca);
        vstd::seq_lib::lemma_multiset_commutative(ca, cb);
        vstd::seq_lib::lemma_multiset_commutative(cb, ca);
        assert(c1 + (ca + cb) =~= (c1 + (ca + cb)));
    }
    assert(collect(stack, Seq::empty(), NodeView::Obj(f1 + seq![a, b] + f2)) == left);
    assert(collect(stack, Seq::empty(), NodeView::Obj(f1 + seq![b, a] + f2)) == right);
    left.lemma_sort_by_ensures(ord);
    right.lemma_sort_by_ensures(ord);
    lemma_sorted_unique(left.sort_by(ord), right.sort_by(ord), ord);
}


/// The summary depends only on which pairs the traversal collected, not
/// on the order they came in: records whose collected pairs agree as a
/// multiset flatten to the same text.
pub proof fn lemma_summary_depends_on_multiset(v1: NodeView, v2: NodeView)
    requires
        collect(Seq::empty(), Seq::empty(), v1).to_multiset() == collect(
            Seq::empty(),
            Seq::empty(),
            v2,
        ).to_multiset(),
    ensures
        record_summary(v1) == record_summary(v2),
{
    let ord = pair_ord();
    lemma_pair_ord_total();
    let c1 = collect(Seq::empty(), Seq::empty(), v1);
    let c2 = collect(Seq::empty(), Seq::empty(), v2);
    c1.lemma_sort_by_ensures(ord);
    c2.lemma_sort_by_ensures(ord);
    lemma_sorted_unique(c1.sort_by(ord), c2.sort_by(ord), ord);
}

} // verus!
