//! The structured event record: an immutable tree of typed nodes, its ghost
//! view, and its canonical serialized text.
use vstd::prelude::*;

use crate::text::trimmed;

verus! {

/// One decoded event record: a schema-loose tree of typed nodes.
pub enum RecordNode {
    Null,
    Bool(bool),
    /// A numeric node, held as its canonical textual form; the core never
    /// computes with numbers, it only prints them.
    Num(String),
    Text(String),
    Arr(Vec<RecordNode>),
    Obj(Vec<(String, RecordNode)>),
}

/// The mathematical shape of a record node.
#[verifier::ext_equal]
pub enum NodeView {
    Null,
    Bool(bool),
    Num(Seq<char>),
    Text(Seq<char>),
    Arr(Seq<NodeView>),
    Obj(Seq<(Seq<char>, NodeView)>),
}

pub open spec fn views_of_nodes(items: Seq<RecordNode>) -> Seq<NodeView>
    decreases items, items.len(),
{
    if items.len() == 0 {
        Seq::empty()
    } else {
        seq![node_view(items[0])] + views_of_nodes(items.drop_first())
    }
}

pub open spec fn views_of_fields(fields: Seq<(String, RecordNode)>) -> Seq<(Seq<char>, NodeView)>
    decreases fields, fields.len(),
{
    if fields.len() == 0 {
        Seq::empty()
    } else {
        seq![(fields[0].0@, node_view(fields[0].1))] + views_of_fields(fields.drop_first())
    }
}

pub open spec fn node_view(n: RecordNode) -> NodeView
    decreases n,
{
    match n {
        RecordNode::Null => NodeView::Null,
        RecordNode::Bool(b) => NodeView::Bool(b),
        RecordNode::Num(t) => NodeView::Num(t@),
        RecordNode::Text(s) => NodeView::Text(s@),
        RecordNode::Arr(elems) => NodeView::Arr(views_of_nodes(elems@)),
        RecordNode::Obj(fields) => NodeView::Obj(views_of_fields(fields@)),
    }
}

impl View for RecordNode {
    type V = NodeView;

    open spec fn view(&self) -> NodeView {
        node_view(*self)
    }
}

pub proof fn lemma_views_of_nodes(items: Seq<RecordNode>)
    ensures
        views_of_nodes(items).len() == items.len(),
        forall|i: int|
            0 <= i < items.len() ==> views_of_nodes(items)[i] == node_view(items[i]),
    decreases items.len(),
{
    if items.len() > 0 {
        lemma_views_of_nodes(items.drop_first());
    }
}

pub proof fn lemma_views_of_fields(fields: Seq<(String, RecordNode)>)
    ensures
        views_of_fields(fields).len() == fields.len(),
        forall|i: int|
            0 <= i < fields.len() ==> views_of_fields(fields)[i] == (
            fields[i].0@,
            node_view(fields[i].1),
            ),
    decreases fields.len(),
{
    if fields.len() > 0 {
        lemma_views_of_fields(fields.drop_first());
    }
}

/// One hexadecimal digit, lower case.
pub open spec fn hex_digit(d: int) -> char {
    seq!['0', '1', '2', '3', '4', '5', '6', '7', '8', '9', 'a', 'b', 'c', 'd', 'e', 'f'][d]
}

/// How one character appears inside a serialized JSON string: quote and
/// backslash escaped, control characters as short escapes or `\u00..`.
pub open spec fn esc_char(c: char) -> Seq<char> {
    if c == '"' {
        seq!['\\', '"']
    } else if c == '\\' {
        seq!['\\', '\\']
    } else if c == '\u{8}' {
        seq!['\\', 'b']
    } else if c == '\u{9}' {
        seq!['\\', 't']
    } else if c == '\u{a}' {
        seq!['\\', 'n']
    } else if c == '\u{c}' {
        seq!['\\', 'f']
    } else if c == '\u{d}' {
        seq!['\\', 'r']
    } else if c <= '\u{1f}' {
        seq!['\\', 'u', '0', '0', hex_digit((c as u32) as int / 16), hex_digit((c as u32) as int % 16)]
    } else {
        seq![c]
    }
}

pub open spec fn json_escaped(s: Seq<char>) -> Seq<char>
    decreases s.len(),
{
    if s.len() == 0 {
        Seq::empty()
    } else {
        esc_char(s[0]) + json_escaped(s.skip(1))
    }
}

/// The canonical serialized text of a node: compact JSON.
pub open spec fn json_of(v: NodeView) -> Seq<char>
    decreases v,
{
    match v {
        NodeView::Null => seq!['n', 'u', 'l', 'l'],
        NodeView::Bool(b) => if b {
            seq!['t', 'r', 'u', 'e']
        } else {
            seq!['f', 'a', 'l', 's', 'e']
        },
        NodeView::Num(t) => t,
        NodeView::Text(s) => seq!['"'] + json_escaped(s) + seq!['"'],
        NodeView::Arr(items) => seq!['['] + json_items(items) + seq![']'],
        NodeView::Obj(fields) => seq!['{'] + json_fields(fields) + seq!['}'],
    }
}

pub open spec fn json_items(items: Seq<NodeView>) -> Seq<char>
    decreases items, items.len(),
{
    if items.len() == 0 {
        Seq::empty()
    } else if items.len() == 1 {
        json_of(items[0])
    } else {
        json_of(items[0]) + seq![','] + json_items(items.drop_first())
    }
}

pub open spec fn json_fields(fields: Seq<(Seq<char>, NodeView)>) -> Seq<char>
    decreases fields, fields.len(),
{
    if fields.len() == 0 {
        Seq::empty()
    } else {
        let entry = seq!['"'] + json_escaped(fields[0].0) + seq!['"', ':'] + json_of(
            fields[0].1,
        );
        if fields.len() == 1 {
            entry
        } else {
            entry + seq![','] + json_fields(fields.drop_first())
        }
    }
}

fn hex_digit_char(d: u32) -> (c: char)
    requires
        d < 16,
    ensures
        c == hex_digit(d as int),
{
    if d == 0 {
        '0'
    } else if d == 1 {
        '1'
    } else if d == 2 {
        '2'
    } else if d == 3 {
        '3'
    } else if d == 4 {
        '4'
    } else if d == 5 {
        '5'
    } else if d == 6 {
        '6'
    } else if d == 7 {
        '7'
    } else if d == 8 {
        '8'
    } else if d == 9 {
        '9'
    } else if d == 10 {
        'a'
    } else if d == 11 {
        'b'
    } else if d == 12 {
        'c'
    } else if d == 13 {
        'd'
    } else if d == 14 {
        'e'
    } else {
        'f'
    }
}

/// Append the JSON escape of one character.
fn push_escaped(out: &mut Vec<char>, c: char)
    ensures
        final(out)@ == old(out)@ + esc_char(c),
{
    if c == '"' {
        out.push('\\');
        out.push('"');
    } else if c == '\\' {
        out.push('\\');
        out.push('\\');
    } else if c == '\u{8}' {
        out.push('\\');
        out.push('b');
    } else if c == '\u{9}' {
        out.push('\\');
        out.push('t');
    } else if c == '\u{a}' {
        out.push('\\');
        out.push('n');
    } else if c == '\u{c}' {
        out.push('\\');
        out.push('f');
    } else if c == '\u{d}' {
        out.push('\\');
        out.push('r');
    } else if c <= '\u{1f}' {
        out.push('\\');
        out.push('u');
        out.push('0');
        out.push('0');
        let cv: u32 = c as u32;
        proof {
            assert(cv < 0x20);
        }
        out.push(hex_digit_char(cv / 16));
        out.push(hex_digit_char(cv % 16));
        proof {
            assert(final(out)@ =~= old(out)@ + esc_char(c));
        }
    } else {
        out.push(c);
    }
    proof {
        assert(final(out)@ =~= old(out)@ + esc_char(c));
    }
}

/// Append the JSON escape of a whole string.
fn push_escaped_str(out: &mut Vec<char>, s: &str)
    ensures
        final(out)@ == old(out)@ + json_escaped(s@),
{
    let n: usize = s.unicode_len();
    let mut i: usize = 0;
    proof {
        assert(s@.skip(0) =~= s@);
    }
    while i < n
        invariant
            n == s@.len(),
            i <= n,
            old(out)@ + json_escaped(s@) == out@ + json_escaped(s@.skip(i as int)),
        decreases n - i,
    {
        proof {
            assert(s@.skip(i as int)[0] == s@[i as int]);
            assert(s@.skip(i as int).skip(1) =~= s@.skip(i + 1));
        }
        push_escaped(out, s.get_char(i));
        i = i + 1;
    }
    proof {
        assert(s@.skip(i as int) =~= Seq::<char>::empty());
        assert(out@ =~= out@ + json_escaped(s@.skip(i as int)));
    }
}

/// Serialize a node as compact JSON text.
pub fn write_json(n: &RecordNode, out: &mut Vec<char>)
    ensures
        final(out)@ == old(out)@ + json_of(n@),
    decreases *n,
{
    match n {
        RecordNode::Null => {
            out.push('n');
            out.push('u');
            out.push('l');
            out.push('l');
            proof {
                assert(final(out)@ =~= old(out)@ + json_of(n@));
            }
        },
        RecordNode::Bool(b) => {
            if *b {
                out.push('t');
                out.push('r');
                out.push('u');
                out.push('e');
            } else {
                out.push('f');
                out.push('a');
                out.push('l');
                out.push('s');
                out.push('e');
            }
            proof {
                assert(final(out)@ =~= old(out)@ + json_of(n@));
            }
        },
        RecordNode::Num(t) => {
            let mut tc = crate::text::chars_of(t.as_str());
            out.append(&mut tc);
            proof {
                assert(final(out)@ =~= old(out)@ + json_of(n@));
            }
        },
        RecordNode::Text(s) => {
            out.push('"');
            push_escaped_str(out, s.as_str());
            out.push('"');
            proof {
                assert(final(out)@ =~= old(out)@ + json_of(n@));
            }
        },
        RecordNode::Arr(elems) => {
            out.push('[');
            write_json_items(elems, 0, out);
            out.push(']');
            proof {
                lemma_views_of_nodes(elems@);
                assert(views_of_nodes(elems@).skip(0) =~= views_of_nodes(elems@));
                assert(final(out)@ =~= old(out)@ + json_of(n@));
            }
        },
        RecordNode::Obj(fields) => {
            out.push('{');
            write_json_fields(fields, 0, out);
            out.push('}');
            proof {
                lemma_views_of_fields(fields@);
                assert(views_of_fields(fields@).skip(0) =~= views_of_fields(fields@));
                assert(final(out)@ =~= old(out)@ + json_of(n@));
            }
        },
    }
}

fn write_json_items(items: &Vec<RecordNode>, i: usize, out: &mut Vec<char>)
    requires
        i <= items@.len(),
    ensures
        final(out)@ == old(out)@ + json_items(views_of_nodes(items@).skip(i as int)),
    decreases items@, items@.len() - i,
{
    proof {
        lemma_views_of_nodes(items@);
    }
    let ghost vs = views_of_nodes(items@).skip(i as int);
    if i < items.len() {
        write_json(&items[i], out);
        proof {
            assert(vs[0] == node_view(items@[i as int]));
        }
        if i + 1 < items.len() {
            out.push(',');
        }
        write_json_items(items, i + 1, out);
        proof {
            assert(views_of_nodes(items@).skip(i + 1) =~= vs.skip(1));
            if i + 1 < items@.len() {
                assert(vs.len() > 1);
                assert(json_items(vs) == json_of(vs[0]) + seq![','] + json_items(vs.skip(1)));
            } else {
                assert(vs.len() == 1);
                assert(vs.skip(1) =~= Seq::<NodeView>::empty());
                assert(json_items(vs) == json_of(vs[0]));
            }
            assert(final(out)@ =~= old(out)@ + json_items(vs));
        }
    } else {
        proof {
            assert(vs =~= Seq::<NodeView>::empty());
            assert(final(out)@ =~= old(out)@ + json_items(vs));
        }
    }
}

fn write_json_fields(fields: &Vec<(String, RecordNode)>, i: usize, out: &mut Vec<char>)
    requires
        i <= fields@.len(),
    ensures
        final(out)@ == old(out)@ + json_fields(views_of_fields(fields@).skip(i as int)),
    decreases fields@, fields@.len() - i,
{
    proof {
        lemma_views_of_fields(fields@);
    }
    let ghost vs = views_of_fields(fields@).skip(i as int);
    if i < fields.len() {
        out.push('"');
        push_escaped_str(out, fields[i].0.as_str());
        out.push('"');
        out.push(':');
        proof {
            assert(decreases_to!(fields@, fields@.len() - i => fields@[i as int]));
            assert(decreases_to!(fields@[i as int] => fields@[i as int].1));
        }
        write_json(&fields[i].1, out);
        proof {
            assert(vs[0] == (fields@[i as int].0@, node_view(fields@[i as int].1)));
        }
        if i + 1 < fields.len() {
            out.push(',');
        }
        write_json_fields(fields, i + 1, out);
        proof {
            assert(views_of_fields(fields@).skip(i + 1) =~= vs.skip(1));
            let entry = seq!['"'] + json_escaped(vs[0].0) + seq!['"', ':'] + json_of(vs[0].1);
            if i + 1 < fields@.len() {
                assert(vs.len() > 1);
                assert(json_fields(vs) == entry + seq![','] + json_fields(vs.skip(1)));
            } else {
                assert(vs.len() == 1);
                assert(vs.skip(1) =~= Seq::<(Seq<char>, NodeView)>::empty());
                assert(json_fields(vs) == entry);
            }
            assert(final(out)@ =~= old(out)@ + json_fields(vs));
        }
    } else {
        proof {
            assert(vs =~= Seq::<(Seq<char>, NodeView)>::empty());
            assert(final(out)@ =~= old(out)@ + json_fields(vs));
        }
    }
}

/// The first field of an object view named `key`, if any.
pub open spec fn field_of(fields: Seq<(Seq<char>, NodeView)>, key: Seq<char>) -> Option<NodeView>
    decreases fields.len(),
{
    if fields.len() == 0 {
        Option::None
    } else if fields[0].0 == key {
        Option::Some(fields[0].1)
    } else {
        field_of(fields.drop_first(), key)
    }
}

/// The child of `v` under `key`: only object nodes have children.
pub open spec fn child_of(v: NodeView, key: Seq<char>) -> Option<NodeView> {
    match v {
        NodeView::Obj(fields) => field_of(fields, key),
        _ => Option::None,
    }
}

/// Look up the first field of an object node named `key`.
pub fn get_child<'a>(n: &'a RecordNode, key: &Vec<char>) -> (r: Option<&'a RecordNode>)
    ensures
        match r {
            Option::Some(c) => child_of(n@, key@) == Option::Some(c@),
            Option::None => child_of(n@, key@) is None,
        },
{
    match n {
        RecordNode::Obj(fields) => {
            proof {
                lemma_views_of_fields(fields@);
            }
            let ghost fv = views_of_fields(fields@);
            let mut j: usize = 0;
            proof {
                assert(fv.skip(0) =~= fv);
            }
            while j < fields.len()
                invariant
                    j <= fields@.len(),
                    fv == views_of_fields(fields@),
                    n@ == NodeView::Obj(fv),
                    fv.len() == fields@.len(),
                    forall|i: int|
                        0 <= i < fields@.len() ==> fv[i] == (
                        fields@[i].0@,
                        node_view(fields@[i].1),
                        ),
                    field_of(fv, key@) == field_of(fv.skip(j as int), key@),
                decreases fields@.len() - j,
            {
                proof {
                    assert(fv.skip(j as int)[0] == fv[j as int]);
                    assert(fv.skip(j as int).skip(1) =~= fv.skip(j + 1));
                }
                let kc = crate::text::chars_of(fields[j].0.as_str());
                if crate::text::chars_eq(&kc, key) {
                    proof {
                        assert(fv.skip(j as int)[0].0 == key@);
                        assert(field_of(fv.skip(j as int), key@) == Option::Some(
                            fv.skip(j as int)[0].1,
                        ));
                        assert(fv[j as int].1 == node_view(fields@[j as int].1));
                        assert(child_of(n@, key@) == field_of(fv, key@));
                    }
                    return Option::Some(&fields[j].1);
                }
                j = j + 1;
            }
            proof {
                assert(fv.skip(j as int) =~= Seq::<(Seq<char>, NodeView)>::empty());
            }
            Option::None
        },
        _ => Option::None,
    }
}

/// Whether a node is an object.
pub fn is_object(n: &RecordNode) -> (r: bool)
    ensures
        r == (n@ is Obj),
{
    match n {
        RecordNode::Obj(_) => true,
        _ => false,
    }
}

/// Deep copy of a record node.
pub fn clone_node(n: &RecordNode) -> (r: RecordNode)
    ensures
        r@ == n@,
    decreases *n,
{
    match n {
        RecordNode::Null => RecordNode::Null,
        RecordNode::Bool(b) => RecordNode::Bool(*b),
        RecordNode::Num(t) => RecordNode::Num(t.clone()),
        RecordNode::Text(s) => RecordNode::Text(s.clone()),
        RecordNode::Arr(elems) => {
            let out = clone_nodes(elems, 0);
            proof {
                lemma_views_of_nodes(out@);
                lemma_views_of_nodes(elems@);
                assert(views_of_nodes(out@) =~= views_of_nodes(elems@));
            }
            RecordNode::Arr(out)
        },
        RecordNode::Obj(fields) => {
            let out = clone_fields(fields, 0);
            proof {
                lemma_views_of_fields(out@);
                lemma_views_of_fields(fields@);
                assert(views_of_fields(out@) =~= views_of_fields(fields@));
            }
            RecordNode::Obj(out)
        },
    }
}

fn clone_nodes(items: &Vec<RecordNode>, i: usize) -> (out: Vec<RecordNode>)
    requires
        i <= items@.len(),
    ensures
        out@.len() == items@.len() - i,
        forall|k: int| 0 <= k < out@.len() ==> node_view(out@[k]) == node_view(items@[i + k]),
    decreases items@, items@.len() - i,
{
    if i == items.len() {
        Vec::new()
    } else {
        let c = clone_node(&items[i]);
        let mut rest = clone_nodes(items, i + 1);
        let mut out: Vec<RecordNode> = Vec::new();
        out.push(c);
        out.append(&mut rest);
        out
    }
}

fn clone_fields(fields: &Vec<(String, RecordNode)>, i: usize) -> (out: Vec<(String, RecordNode)>)
    requires
        i <= fields@.len(),
    ensures
        out@.len() == fields@.len() - i,
        forall|k: int|
            0 <= k < out@.len() ==> out@[k].0@ == fields@[i + k].0@ && node_view(out@[k].1)
                == node_view(fields@[i + k].1),
    decreases fields@, fields@.len() - i,
{
    if i == fields.len() {
        Vec::new()
    } else {
        proof {
            assert(decreases_to!(fields@, fields@.len() - i => fields@[i as int]));
            assert(decreases_to!(fields@[i as int] => fields@[i as int].1));
        }
        let c = clone_node(&fields[i].1);
        let k = fields[i].0.clone();
        let mut rest = clone_fields(fields, i + 1);
        let mut out: Vec<(String, RecordNode)> = Vec::new();
        out.push((k, c));
        out.append(&mut rest);
        out
    }
}

/// The scalar display text of a node: strings trimmed, numbers and booleans
/// in canonical form, everything else without one.
pub open spec fn scalar_string(v: NodeView) -> Option<Seq<char>> {
    match v {
        NodeView::Null => Option::None,
        NodeView::Bool(b) => Option::Some(json_of(v)),
        NodeView::Num(t) => Option::Some(t),
        NodeView::Text(s) => Option::Some(trimmed(s)),
        NodeView::Arr(_) => Option::None,
        NodeView::Obj(_) => Option::None,
    }
}

/// The projected display text of a node: like `scalar_string`, but an array
/// shows its canonical serialized text; objects and nulls have none.
pub open spec fn projected_string(v: NodeView) -> Option<Seq<char>> {
    match v {
        NodeView::Null => Option::None,
        NodeView::Obj(_) => Option::None,
        NodeView::Bool(b) => Option::Some(json_of(v)),
        NodeView::Num(t) => Option::Some(t),
        NodeView::Text(s) => Option::Some(trimmed(s)),
        NodeView::Arr(_) => Option::Some(json_of(v)),
    }
}

/// The scalar display text of `n` as a character buffer.
pub fn scalar_chars(n: &RecordNode) -> (r: Option<Vec<char>>)
    ensures
        match r {
            Option::Some(v) => scalar_string(n@) == Option::Some(v@),
            Option::None => scalar_string(n@) is None,
        },
{
    match n {
        RecordNode::Bool(b) => {
            let mut out: Vec<char> = Vec::new();
            write_json(n, &mut out);
            Option::Some(out)
        },
        RecordNode::Num(t) => Option::Some(crate::text::chars_of(t.as_str())),
        RecordNode::Text(s) => {
            let sc = crate::text::chars_of(s.as_str());
            Option::Some(crate::text::trim_chars(&sc))
        },
        _ => Option::None,
    }
}

/// The projected display text of `n` as a character buffer.
pub fn projected_chars(n: &RecordNode) -> (r: Option<Vec<char>>)
    ensures
        match r {
            Option::Some(v) => projected_string(n@) == Option::Some(v@),
            Option::None => projected_string(n@) is None,
        },
{
    match n {
        RecordNode::Bool(b) => {
            let mut out: Vec<char> = Vec::new();
            write_json(n, &mut out);
            Option::Some(out)
        },
        RecordNode::Arr(e) => {
            let mut out: Vec<char> = Vec::new();
            write_json(n, &mut out);
            Option::Some(out)
        },
        RecordNode::Num(t) => Option::Some(crate::text::chars_of(t.as_str())),
        RecordNode::Text(s) => {
            let sc = crate::text::chars_of(s.as_str());
            Option::Some(crate::text::trim_chars(&sc))
        },
        _ => Option::None,
    }
}

} // verus!
