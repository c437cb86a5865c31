//! Field projection: walking a record along a resolved dotted path, the
//! bracketed array-index convention layered on top of alias resolution, and
//! the replacement text of one `%Token%`.
use vstd::prelude::*;

use crate::aliases::alias_path;
use crate::aliases::split_dots;
use crate::aliases::split_dots_chars;
use crate::aliases::AliasDirectory;
use crate::numtext::all_digits;
use crate::numtext::dec_val;
use crate::numtext::is_digit;
use crate::numtext::parse_digit_run;
use crate::record::child_of;
use crate::record::clone_node;
use crate::record::get_child;
use crate::record::is_object;
use crate::record::projected_string;
use crate::record::NodeView;
use crate::record::RecordNode;
use crate::text::chars_of;
use crate::text::copy_range;
use crate::text::normalize_ws;
use crate::text::normalized_ws;

verus! {

/// Walk one path segment per step; where a segment is missing, stop and
/// retain the last node reached.
pub open spec fn walk_stop(v: NodeView, segs: Seq<Seq<char>>) -> NodeView
    decreases segs.len(),
{
    if segs.len() == 0 {
        v
    } else {
        match child_of(v, segs[0]) {
            Option::Some(c) => walk_stop(c, segs.drop_first()),
            Option::None => v,
        }
    }
}

/// Walk one path segment per step; a missing segment stands for a null
/// node, and descending into anything but an object fails.
pub open spec fn walk_strict(v: NodeView, segs: Seq<Seq<char>>) -> Option<NodeView>
    decreases segs.len(),
{
    if segs.len() == 0 {
        Option::Some(v)
    } else if !(v is Obj) {
        Option::None
    } else {
        match child_of(v, segs[0]) {
            Option::Some(c) => walk_strict(c, segs.drop_first()),
            Option::None => walk_strict(NodeView::Null, segs.drop_first()),
        }
    }
}

/// Walk `n` along `segs`, retaining the last reached node.
pub fn walk_stop_from<'a>(n: &'a RecordNode, segs: &Vec<Vec<char>>, i: usize) -> (r:
    &'a RecordNode)
    requires
        i <= segs@.len(),
    ensures
        r@ == walk_stop(n@, segs.deep_view().skip(i as int)),
    decreases segs@.len() - i,
{
    let ghost dv = segs.deep_view();
    if i == segs.len() {
        proof {
            assert(dv.skip(i as int) =~= Seq::<Seq<char>>::empty());
        }
        n
    } else {
        proof {
            assert(dv.skip(i as int)[0] == segs@[i as int]@);
            assert(dv.skip(i as int).drop_first() =~= dv.skip(i + 1));
        }
        match get_child(n, &segs[i]) {
            Option::Some(c) => walk_stop_from(c, segs, i + 1),
            Option::None => n,
        }
    }
}

/// Walk `n` along `segs` strictly, returning a copy of the node reached.
pub fn walk_strict_from(n: &RecordNode, segs: &Vec<Vec<char>>, i: usize) -> (r: Option<
    RecordNode,
>)
    requires
        i <= segs@.len(),
    ensures
        match r {
            Option::Some(c) => walk_strict(n@, segs.deep_view().skip(i as int))
                == Option::Some(c@),
            Option::None => walk_strict(n@, segs.deep_view().skip(i as int)) is None,
        },
    decreases segs@.len() - i,
{
    let ghost dv = segs.deep_view();
    if i == segs.len() {
        proof {
            assert(dv.skip(i as int) =~= Seq::<Seq<char>>::empty());
        }
        Option::Some(clone_node(n))
    } else if !is_object(n) {
        Option::None
    } else {
        proof {
            assert(dv.skip(i as int)[0] == segs@[i as int]@);
            assert(dv.skip(i as int).drop_first() =~= dv.skip(i + 1));
        }
        match get_child(n, &segs[i]) {
            Option::Some(c) => walk_strict_from(c, segs, i + 1),
            Option::None => {
                let nul = RecordNode::Null;
                walk_strict_from(&nul, segs, i + 1)
            },
        }
    }
}

/// The characters a template token may hold.
pub open spec fn is_token_char(c: char) -> bool {
    ('a' <= c && c <= 'z') || ('A' <= c && c <= 'Z') || is_digit(c) || c == '-' || c == '_' || c
        == '[' || c == ']'
}

pub fn token_char(c: char) -> (r: bool)
    ensures
        r == is_token_char(c),
{
    ('a' <= c && c <= 'z') || ('A' <= c && c <= 'Z') || ('0' <= c && c <= '9') || c == '-' || c
        == '_' || c == '[' || c == ']'
}

/// Longest prefix of token characters.
pub open spec fn token_run(s: Seq<char>) -> Seq<char>
    decreases s.len(),
{
    if s.len() == 0 || !is_token_char(s[0]) {
        Seq::empty()
    } else {
        seq![s[0]] + token_run(s.skip(1))
    }
}

/// Longest prefix of decimal digits.
pub open spec fn digit_run(s: Seq<char>) -> Seq<char>
    decreases s.len(),
{
    if s.len() == 0 || !is_digit(s[0]) {
        Seq::empty()
    } else {
        seq![s[0]] + digit_run(s.skip(1))
    }
}

/// Find where the token run starting at `i` ends.
pub fn token_run_end(v: &Vec<char>, i: usize) -> (j: usize)
    requires
        i <= v@.len(),
    ensures
        i <= j <= v@.len(),
        token_run(v@.skip(i as int)) == v@.subrange(i as int, j as int),
        j < v@.len() ==> !is_token_char(v@[j as int]),
    decreases v@.len() - i,
{
    let mut j: usize = i;
    while j < v.len() && token_char(v[j])
        invariant
            i <= j <= v@.len(),
            token_run(v@.skip(i as int)) == v@.subrange(i as int, j as int) + token_run(
                v@.skip(j as int),
            ),
        decreases v@.len() - j,
    {
        proof {
            assert(v@.skip(j as int)[0] == v@[j as int]);
            assert(v@.skip(j as int).skip(1) =~= v@.skip(j + 1));
            assert(v@.subrange(i as int, j + 1) =~= v@.subrange(i as int, j as int) + seq![
                v@[j as int],
            ]);
        }
        j = j + 1;
    }
    proof {
        if j < v@.len() {
            assert(v@.skip(j as int)[0] == v@[j as int]);
        }
        assert(token_run(v@.skip(j as int)) =~= Seq::<char>::empty());
        assert(token_run(v@.skip(i as int)) =~= v@.subrange(i as int, j as int));
    }
    j
}

/// Find where the digit run starting at `i` ends.
fn digit_run_end(v: &Vec<char>, i: usize) -> (j: usize)
    requires
        i <= v@.len(),
    ensures
        i <= j <= v@.len(),
        digit_run(v@.skip(i as int)) == v@.subrange(i as int, j as int),
        all_digits(v@.subrange(i as int, j as int)),
    decreases v@.len() - i,
{
    let mut j: usize = i;
    while j < v.len() && crate::numtext::digit_char(v[j])
        invariant
            i <= j <= v@.len(),
            digit_run(v@.skip(i as int)) == v@.subrange(i as int, j as int) + digit_run(
                v@.skip(j as int),
            ),
            all_digits(v@.subrange(i as int, j as int)),
        decreases v@.len() - j,
    {
        proof {
            assert(v@.skip(j as int)[0] == v@[j as int]);
            assert(v@.skip(j as int).skip(1) =~= v@.skip(j + 1));
            assert(v@.subrange(i as int, j + 1) =~= v@.subrange(i as int, j as int) + seq![
                v@[j as int],
            ]);
        }
        j = j + 1;
    }
    proof {
        if j < v@.len() {
            assert(v@.skip(j as int)[0] == v@[j as int]);
        }
        assert(digit_run(v@.skip(j as int)) =~= Seq::<char>::empty());
        assert(digit_run(v@.skip(i as int)) =~= v@.subrange(i as int, j as int));
    }
    j
}

/// Whether a bracketed digit group `[N]` starts right here.
pub open spec fn bracket_at(s: Seq<char>) -> bool {
    &&& s.len() >= 3
    &&& s[0] == '['
    &&& digit_run(s.skip(1)).len() >= 1
    &&& digit_run(s.skip(1)).len() + 1 < s.len()
    &&& s[digit_run(s.skip(1)).len() as int + 1] == ']'
}

/// The digits of the first bracketed group `[N]` in `s`, if any.
pub open spec fn first_bracket_digits(s: Seq<char>) -> Option<Seq<char>>
    decreases s.len(),
{
    if s.len() == 0 {
        Option::None
    } else if bracket_at(s) {
        Option::Some(digit_run(s.skip(1)))
    } else {
        first_bracket_digits(s.skip(1))
    }
}

/// The numeric value of the first bracketed group in a token, `-1` when
/// there is none or its value does not fit an `i64`.
pub open spec fn suffix_of(s: Seq<char>) -> int {
    match first_bracket_digits(s) {
        Option::Some(ds) => if dec_val(ds) <= i64::MAX {
            dec_val(ds)
        } else {
            -1
        },
        Option::None => -1,
    }
}

fn first_bracket_from(v: &Vec<char>, i: usize) -> (r: Option<Vec<char>>)
    requires
        i <= v@.len(),
    ensures
        match r {
            Option::Some(ds) => first_bracket_digits(v@.skip(i as int)) == Option::Some(ds@)
                && all_digits(ds@),
            Option::None => first_bracket_digits(v@.skip(i as int)) is None,
        },
    decreases v@.len() - i,
{
    let ghost tail = v@.skip(i as int);
    if i == v.len() {
        proof {
            assert(tail =~= Seq::<char>::empty());
        }
        return Option::None;
    }
    proof {
        assert(tail[0] == v@[i as int]);
        assert(tail.skip(1) =~= v@.skip(i + 1));
    }
    if v[i] == '[' {
        let j = digit_run_end(v, i + 1);
        proof {
            assert(digit_run(tail.skip(1)) == v@.subrange(i + 1, j as int));
            assert(digit_run(tail.skip(1)).len() == j - i - 1);
        }
        if j > i + 1 && j < v.len() && v[j] == ']' {
            proof {
                assert(tail[j - i] == v@[j as int]);
                assert(bracket_at(tail));
            }
            let ds = copy_range(v, i + 1, j);
            return Option::Some(ds);
        }
        proof {
            assert(!bracket_at(tail));
        }
        first_bracket_from(v, i + 1)
    } else {
        proof {
            assert(!bracket_at(tail));
        }
        first_bracket_from(v, i + 1)
    }
}

/// The key of the sibling field that the bracket convention indexes.
pub open spec fn data_key() -> Seq<char> {
    seq!['D', 'a', 't', 'a']
}

/// Apply the bracket-suffix rule: from the retained node, index the field
/// literally named `Data` one-based; where that fails, keep the node.
pub open spec fn suffix_step(v: NodeView, sfx: int) -> NodeView {
    match child_of(v, data_key()) {
        Option::Some(c) => match c {
            NodeView::Arr(items) => if 1 <= sfx && sfx <= items.len() {
                items[sfx - 1]
            } else {
                v
            },
            _ => v,
        },
        Option::None => v,
    }
}

/// The replacement text of one template token against a record: alias or
/// default path, loose walk, bracket suffix, stringification, whitespace
/// normalization; an unresolvable token reads `n/a`.
pub open spec fn token_replacement(
    tok: Seq<char>,
    rv: NodeView,
    al: Seq<(Seq<char>, Seq<char>)>,
) -> Seq<char> {
    let path = match alias_path(al, tok) {
        Option::Some(p) => p,
        Option::None => default_prefix() + tok,
    };
    let node = walk_stop(rv, split_dots(path));
    let sfx = suffix_of(tok);
    let node2 = if sfx >= 1 {
        suffix_step(node, sfx)
    } else {
        node
    };
    match projected_string(node2) {
        Option::Some(t) => normalized_ws(t),
        Option::None => seq!['n', '/', 'a'],
    }
}

/// The path pattern synthesized for a name no alias covers.
pub open spec fn default_prefix() -> Seq<char> {
    seq!['E', 'v', 'e', 'n', 't', '.', 'E', 'v', 'e', 'n', 't', 'D', 'a', 't', 'a', '.']
}

/// Compute the replacement text of one token.
pub fn resolve_token(tok: &Vec<char>, record: &RecordNode, aliases: &AliasDirectory) -> (r: Vec<
    char,
>)
    ensures
        r@ == token_replacement(tok@, record@, aliases@),
{
    let path_chars: Vec<char> = match aliases.get_event_key(tok) {
        Option::Some(p) => chars_of(p.as_str()),
        Option::None => {
            let mut pc = chars_of("Event.EventData.");
            proof {
                reveal_strlit("Event.EventData.");
                assert(pc@ =~= default_prefix());
            }
            let mut tc = copy_range(tok, 0, tok.len());
            pc.append(&mut tc);
            proof {
                assert(tok@.subrange(0, tok@.len() as int) =~= tok@);
                assert(pc@ =~= default_prefix() + tok@);
            }
            pc
        },
    };
    let segs = split_dots_chars(&path_chars);
    proof {
        assert(segs.deep_view().skip(0) =~= segs.deep_view());
    }
    let node = walk_stop_from(record, &segs, 0);
    let sfx: i64 = match first_bracket_from(tok, 0) {
        Option::Some(ds) => {
            proof {
                assert(tok@.skip(0) =~= tok@);
            }
            match parse_digit_run(&ds) {
                Option::Some(n) => n,
                Option::None => -1,
            }
        },
        Option::None => {
            proof {
                assert(tok@.skip(0) =~= tok@);
            }
            -1
        },
    };
    proof {
        assert(sfx as int == suffix_of(tok@));
    }
    let node2: &RecordNode = if sfx >= 1 {
        apply_suffix(node, sfx)
    } else {
        node
    };
    proof {
        if sfx >= 1 {
            assert(node2@ == suffix_step(node@, sfx as int));
        }
    }
    match crate::record::projected_chars(node2) {
        Option::Some(t) => normalize_ws(&t),
        Option::None => {
            let mut na: Vec<char> = Vec::new();
            na.push('n');
            na.push('/');
            na.push('a');
            proof {
                assert(na@ =~= seq!['n', '/', 'a']);
            }
            na
        },
    }
}

/// Select the one-based element of the sibling `Data` array, keeping the
/// node where the array or the element is absent.
fn apply_suffix<'a>(node: &'a RecordNode, sfx: i64) -> (r: &'a RecordNode)
    requires
        sfx >= 1,
    ensures
        r@ == suffix_step(node@, sfx as int),
{
    let mut dk: Vec<char> = Vec::new();
    dk.push('D');
    dk.push('a');
    dk.push('t');
    dk.push('a');
    proof {
        assert(dk@ =~= data_key());
    }
    match get_child(node, &dk) {
        Option::Some(c) => match c {
            RecordNode::Arr(items) => {
                proof {
                    crate::record::lemma_views_of_nodes(items@);
                    assert(child_of(node@, data_key()) == Option::Some(c@));
                    assert(c@ == NodeView::Arr(crate::record::views_of_nodes(items@)));
                }
                let idx64: u64 = (sfx - 1) as u64;
                if idx64 < items.len() as u64 {
                    let idx: usize = idx64 as usize;
                    proof {
                        assert(crate::record::views_of_nodes(items@)[sfx - 1] == items@[sfx
                            - 1]@);
                    }
                    &items[idx]
                } else {
                    node
                }
            },
            _ => node,
        },
        Option::None => node,
    }
}

} // verus!
