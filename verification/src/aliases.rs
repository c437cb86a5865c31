//! The alias directory: a read-only table mapping a short field name to the
//! canonical dotted path of that field inside a record.
use vstd::prelude::*;

use crate::text::copy_range;

verus! {

/// Longest prefix of `s` without a dot.
pub open spec fn dot_free_prefix(s: Seq<char>) -> Seq<char>
    decreases s.len(),
{
    if s.len() == 0 || s[0] == '.' {
        Seq::empty()
    } else {
        seq![s[0]] + dot_free_prefix(s.skip(1))
    }
}

pub proof fn lemma_dot_free_prefix_len(s: Seq<char>)
    ensures
        dot_free_prefix(s).len() <= s.len(),
    decreases s.len(),
{
    if s.len() > 0 && s[0] != '.' {
        lemma_dot_free_prefix_len(s.skip(1));
    }
}

/// The segments of `s` split on `'.'`, empty segments kept.
pub open spec fn split_dots(s: Seq<char>) -> Seq<Seq<char>>
    decreases s.len(),
    via split_dots_dec
{
    if dot_free_prefix(s).len() == s.len() {
        seq![s]
    } else {
        seq![dot_free_prefix(s)] + split_dots(s.skip(dot_free_prefix(s).len() as int + 1))
    }
}

#[via_fn]
proof fn split_dots_dec(s: Seq<char>) {
    lemma_dot_free_prefix_len(s);
}

/// Split a character buffer on dots.
pub fn split_dots_chars(v: &Vec<char>) -> (segs: Vec<Vec<char>>)
    ensures
        segs.deep_view() == split_dots(v@),
{
    proof {
        assert(v@.skip(0) =~= v@);
    }
    split_dots_from(v, 0)
}

fn split_dots_from(v: &Vec<char>, i: usize) -> (segs: Vec<Vec<char>>)
    requires
        i <= v@.len(),
    ensures
        segs.deep_view() == split_dots(v@.skip(i as int)),
    decreases v@.len() - i,
{
    let ghost tail = v@.skip(i as int);
    let mut j: usize = i;
    while j < v.len() && v[j] != '.'
        invariant
            i <= j <= v@.len(),
            tail == v@.skip(i as int),
            dot_free_prefix(tail) == v@.subrange(i as int, j as int) + dot_free_prefix(
                v@.skip(j as int),
            ),
        decreases v@.len() - j,
    {
        proof {
            assert(v@.skip(j as int)[0] == v@[j as int]);
            assert(v@.skip(j as int).skip(1) =~= v@.skip(j + 1));
            assert(dot_free_prefix(v@.skip(j as int)) == seq![v@[j as int]] + dot_free_prefix(
                v@.skip(j + 1),
            ));
            assert(v@.subrange(i as int, j + 1) =~= v@.subrange(i as int, j as int) + seq![
                v@[j as int],
            ]);
        }
        j = j + 1;
    }
    proof {
        if j < v@.len() {
            assert(v@.skip(j as int)[0] == v@[j as int]);
        }
        assert(dot_free_prefix(v@.skip(j as int)) =~= Seq::<char>::empty());
        assert(dot_free_prefix(tail) =~= v@.subrange(i as int, j as int));
        assert(dot_free_prefix(tail).len() == j - i);
    }
    let seg = copy_range(v, i, j);
    let mut out: Vec<Vec<char>> = Vec::new();
    let ghost segv = seg@;
    if j == v.len() {
        proof {
            assert(dot_free_prefix(tail).len() == tail.len());
            assert(split_dots(tail) == seq![tail]);
            assert(segv =~= tail);
        }
        out.push(seg);
        proof {
            assert forall|k: int|
                0 <= k < out.deep_view().len() implies out.deep_view()[k] == seq![segv][k] by {
                assert(out@[k]@ == segv);
            }
            assert(out.deep_view() =~= seq![segv]);
        }
        out
    } else {
        proof {
            assert(dot_free_prefix(tail).len() < tail.len());
            assert(tail.skip(dot_free_prefix(tail).len() as int + 1) =~= v@.skip(j + 1));
            assert(split_dots(tail) == seq![dot_free_prefix(tail)] + split_dots(v@.skip(j + 1)));
        }
        let mut rest = split_dots_from(v, j + 1);
        let ghost restv = rest.deep_view();
        out.push(seg);
        let ghost outv1 = out@;
        out.append(&mut rest);
        proof {
            assert forall|k: int|
                0 <= k < out.deep_view().len() implies out.deep_view()[k] == (seq![segv]
                + restv)[k] by {
                if k == 0 {
                    assert(out@[0]@ == segv);
                } else {
                    assert(out@[k]@ == restv[k - 1]);
                }
            }
            assert(out.deep_view() =~= seq![segv] + restv);
            assert(out.deep_view() =~= split_dots(tail));
        }
        out
    }
}

/// The canonical path recorded for `alias`, if any: the first entry wins.
pub open spec fn alias_path(
    entries: Seq<(Seq<char>, Seq<char>)>,
    alias: Seq<char>,
) -> Option<Seq<char>>
    decreases entries.len(),
{
    if entries.len() == 0 {
        Option::None
    } else if entries[0].0 == alias {
        Option::Some(entries[0].1)
    } else {
        alias_path(entries.drop_first(), alias)
    }
}

/// Read-only directory from short field names to canonical dotted paths,
/// loaded once at startup and only queried afterwards.
pub struct AliasDirectory {
    entries: Vec<(String, String)>,
}

impl View for AliasDirectory {
    type V = Seq<(Seq<char>, Seq<char>)>;

    closed spec fn view(&self) -> Seq<(Seq<char>, Seq<char>)> {
        Seq::new(self.entries@.len(), |i: int| (self.entries@[i].0@, self.entries@[i].1@))
    }
}

impl AliasDirectory {
    /// An empty directory.
    pub fn new() -> (r: AliasDirectory)
        ensures
            r@ == Seq::<(Seq<char>, Seq<char>)>::empty(),
    {
        let r = AliasDirectory { entries: Vec::new() };
        proof {
            assert(r@ =~= Seq::<(Seq<char>, Seq<char>)>::empty());
        }
        r
    }

    /// Record that `alias` stands for the dotted path `path`.
    pub fn register(&mut self, alias: String, path: String)
        ensures
            final(self)@ == old(self)@.push((alias@, path@)),
    {
        let ghost a = alias@;
        let ghost p = path@;
        self.entries.push((alias, path));
        proof {
            assert(final(self)@ =~= old(self)@.push((a, p)));
        }
    }

    /// The canonical path for `alias`, if the directory holds one.
    pub fn get_event_key(&self, alias: &Vec<char>) -> (r: Option<&String>)
        ensures
            match r {
                Option::Some(p) => alias_path(self@, alias@) == Option::Some(p@),
                Option::None => alias_path(self@, alias@) is None,
            },
    {
        let ghost av = self@;
        let mut j: usize = 0;
        proof {
            assert(av.skip(0) =~= av);
        }
        while j < self.entries.len()
            invariant
                j <= self.entries@.len(),
                av == self@,
                av.len() == self.entries@.len(),
                alias_path(av, alias@) == alias_path(av.skip(j as int), alias@),
            decreases self.entries@.len() - j,
        {
            proof {
                assert(av.skip(j as int)[0] == av[j as int]);
                assert(av.skip(j as int).skip(1) =~= av.skip(j + 1));
            }
            let ac = crate::text::chars_of(self.entries[j].0.as_str());
            if crate::text::chars_eq(&ac, alias) {
                proof {
                    assert(av.skip(j as int)[0].0 == alias@);
                    assert(alias_path(av.skip(j as int), alias@) == Option::Some(
                        av.skip(j as int)[0].1,
                    ));
                }
                return Option::Some(&self.entries[j].1);
            }
            j = j + 1;
        }
        proof {
            assert(av.skip(j as int) =~= Seq::<(Seq<char>, Seq<char>)>::empty());
        }
        Option::None
    }
}

} // verus!
