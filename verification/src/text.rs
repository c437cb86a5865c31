//! Character classes and text primitives shared by the projection,
//! flattening and template-resolution code. All executable text handling
//! works on `Vec<char>` buffers whose views are `Seq<char>`.
use vstd::prelude::*;

verus! {

/// The Unicode `White_Space` characters, the set that `str::split_whitespace`
/// splits on.
pub open spec fn is_ws_char(c: char) -> bool {
    ||| c == ' '
    ||| c == '\u{9}'
    ||| c == '\u{a}'
    ||| c == '\u{b}'
    ||| c == '\u{c}'
    ||| c == '\u{d}'
    ||| c == '\u{85}'
    ||| c == '\u{a0}'
    ||| c == '\u{1680}'
    ||| ('\u{2000}' <= c && c <= '\u{200a}')
    ||| c == '\u{2028}'
    ||| c == '\u{2029}'
    ||| c == '\u{202f}'
    ||| c == '\u{205f}'
    ||| c == '\u{3000}'
}

pub fn ws_char(c: char) -> (r: bool)
    ensures
        r == is_ws_char(c),
{
    c == ' ' || c == '\u{9}' || c == '\u{a}' || c == '\u{b}' || c == '\u{c}' || c == '\u{d}'
        || c == '\u{85}' || c == '\u{a0}' || c == '\u{1680}' || ('\u{2000}' <= c && c
        <= '\u{200a}') || c == '\u{2028}' || c == '\u{2029}' || c == '\u{202f}' || c == '\u{205f}'
        || c == '\u{3000}'
}

/// The Unicode control characters (categories Cc): U+0000..U+001F and
/// U+007F..U+009F.
pub open spec fn is_control_char(c: char) -> bool {
    (c as u32) < 0x20 || (0x7f <= (c as u32) && (c as u32) <= 0x9f)
}

pub fn control_char(c: char) -> (r: bool)
    ensures
        r == is_control_char(c),
{
    (c as u32) < 0x20 || (0x7f <= (c as u32) && (c as u32) <= 0x9f)
}

/// Collect the characters of a string slice into a vector.
pub fn chars_of(s: &str) -> (v: Vec<char>)
    ensures
        v@ == s@,
{
    let n: usize = s.unicode_len();
    let mut v: Vec<char> = Vec::new();
    let mut i: usize = 0;
    while i < n
        invariant
            n == s@.len(),
            i <= n,
            v@ == s@.subrange(0, i as int),
        decreases n - i,
    {
        v.push(s.get_char(i));
        i = i + 1;
        proof {
            assert(v@ =~= s@.subrange(0, i as int));
        }
    }
    proof {
        assert(v@ =~= s@);
    }
    v
}

/// Relies on `String::push`: appends one character at the end.
#[verifier::external_body]
fn push_char(s: &mut String, c: char)
    ensures
        final(s)@ == old(s)@.push(c),
{
    s.push(c);
}

/// Build a `String` out of a character buffer.
pub fn string_of(v: &Vec<char>) -> (s: String)
    ensures
        s@ == v@,
{
    let mut s: String = String::new();
    let mut i: usize = 0;
    while i < v.len()
        invariant
            i <= v@.len(),
            s@ == v@.subrange(0, i as int),
        decreases v@.len() - i,
    {
        push_char(&mut s, v[i]);
        i = i + 1;
        proof {
            assert(s@ =~= v@.subrange(0, i as int));
        }
    }
    proof {
        assert(s@ =~= v@);
    }
    s
}

/// Copy the characters of `v` between positions `a` and `b`.
pub fn copy_range(v: &Vec<char>, a: usize, b: usize) -> (r: Vec<char>)
    requires
        a <= b <= v@.len(),
    ensures
        r@ == v@.subrange(a as int, b as int),
{
    let mut out: Vec<char> = Vec::new();
    let mut i: usize = a;
    while i < b
        invariant
            a <= i <= b <= v@.len(),
            out@ == v@.subrange(a as int, i as int),
        decreases b - i,
    {
        out.push(v[i]);
        i = i + 1;
        proof {
            assert(out@ =~= v@.subrange(a as int, i as int));
        }
    }
    out
}

/// Whether `pat` occurs in `s` starting at position `i`.
pub open spec fn occurs_at(s: Seq<char>, pat: Seq<char>, i: int) -> bool {
    0 <= i && i + pat.len() <= s.len() && s.subrange(i, i + pat.len()) == pat
}

/// Whether `pat` occurs anywhere in `s`.
pub open spec fn contains_seq(s: Seq<char>, pat: Seq<char>) -> bool {
    exists|i: int| occurs_at(s, pat, i)
}

/// Test whether `pat` occurs at position `i` of `s`.
fn matches_at(s: &Vec<char>, pat: &Vec<char>, i: usize) -> (r: bool)
    requires
        i <= s@.len(),
    ensures
        r == occurs_at(s@, pat@, i as int),
{
    if pat.len() > s.len() - i {
        proof {
            assert(!occurs_at(s@, pat@, i as int));
        }
        return false;
    }
    let mut j: usize = 0;
    while j < pat.len()
        invariant
            i + pat@.len() <= s@.len(),
            j <= pat@.len(),
            s@.subrange(i as int, i + j) == pat@.subrange(0, j as int),
        decreases pat@.len() - j,
    {
        let n: usize = s.len();
        proof {
            assert(j < pat@.len());
            assert(i + j < n);
        }
        let idx: usize = i + j;
        if s[idx] != pat[j] {
            proof {
                assert(s@.subrange(i as int, i + pat@.len())[j as int] == s@[i + j]);
                assert(pat@[j as int] != s@[i + j]);
            }
            return false;
        }
        j = j + 1;
        proof {
            assert(s@.subrange(i as int, i + j) =~= pat@.subrange(0, j as int));
        }
    }
    proof {
        assert(s@.subrange(i as int, i + pat@.len()) =~= pat@);
    }
    true
}

/// Test whether `pat` occurs anywhere in `s`.
pub fn contains_pattern(s: &Vec<char>, pat: &Vec<char>) -> (r: bool)
    requires
        pat@.len() >= 1,
    ensures
        r == contains_seq(s@, pat@),
{
    let mut i: usize = 0;
    while i < s.len()
        invariant
            i <= s@.len(),
            forall|k: int| 0 <= k < i ==> !occurs_at(s@, pat@, k),
        decreases s@.len() - i,
    {
        if matches_at(s, pat, i) {
            return true;
        }
        i = i + 1;
    }
    proof {
        assert forall|k: int| !occurs_at(s@, pat@, k) by {
            if 0 <= k < i {
            } else {
                assert(!(0 <= k && k + pat@.len() <= s@.len()));
            }
        }
    }
    false
}

/// The result of replacing every occurrence of `pat` (non-empty, leftmost,
/// non-overlapping) in `s` by `rep`.
pub open spec fn replaced(s: Seq<char>, pat: Seq<char>, rep: Seq<char>) -> Seq<char>
    decreases s.len(),
        when pat.len() >= 1
{
    if s.len() == 0 {
        s
    } else if occurs_at(s, pat, 0) {
        rep + replaced(s.skip(pat.len() as int), pat, rep)
    } else {
        seq![s[0]] + replaced(s.skip(1), pat, rep)
    }
}

/// Replace every occurrence of `pat` by `rep`, scanning left to right.
pub fn replace_all(s: &Vec<char>, pat: &Vec<char>, rep: &Vec<char>) -> (r: Vec<char>)
    requires
        pat@.len() >= 1,
    ensures
        r@ == replaced(s@, pat@, rep@),
{
    let mut out: Vec<char> = Vec::new();
    let mut i: usize = 0;
    proof {
        assert(s@.skip(0) =~= s@);
    }
    while i < s.len()
        invariant
            pat@.len() >= 1,
            i <= s@.len(),
            replaced(s@, pat@, rep@) == out@ + replaced(s@.skip(i as int), pat@, rep@),
        decreases s@.len() - i,
    {
        let ghost pre = out@;
        let ghost tail = s@.skip(i as int);
        if matches_at(s, pat, i) {
            proof {
                assert(tail.len() > 0);
                assert(tail.subrange(0, pat@.len() as int) =~= s@.subrange(
                    i as int,
                    i + pat@.len(),
                ));
                assert(occurs_at(tail, pat@, 0));
                assert(tail.skip(pat@.len() as int) =~= s@.skip(i + pat@.len()));
            }
            let mut k: usize = 0;
            while k < rep.len()
                invariant
                    k <= rep@.len(),
                    out@ == pre + rep@.subrange(0, k as int),
                decreases rep@.len() - k,
            {
                out.push(rep[k]);
                k = k + 1;
                proof {
                    assert(out@ =~= pre + rep@.subrange(0, k as int));
                }
            }
            proof {
                assert(rep@.subrange(0, rep@.len() as int) =~= rep@);
            }
            i = i + pat.len();
        } else {
            proof {
                assert(tail.len() > 0);
                if i + pat@.len() <= s@.len() {
                    assert(tail.subrange(0, pat@.len() as int) =~= s@.subrange(
                        i as int,
                        i + pat@.len(),
                    ));
                }
                assert(!occurs_at(tail, pat@, 0));
                assert(tail[0] == s@[i as int]);
                assert(tail.skip(1) =~= s@.skip(i + 1));
            }
            out.push(s[i]);
            i = i + 1;
        }
    }
    proof {
        assert(s@.skip(i as int) =~= Seq::<char>::empty());
        assert(replaced(Seq::<char>::empty(), pat@, rep@) =~= Seq::<char>::empty());
        assert(out@ =~= out@ + replaced(s@.skip(i as int), pat@, rep@));
    }
    out
}

/// One character as `char::to_ascii_lowercase` maps it.
pub open spec fn lower_char(c: char) -> char {
    if c == 'A' {
        'a'
    } else if c == 'B' {
        'b'
    } else if c == 'C' {
        'c'
    } else if c == 'D' {
        'd'
    } else if c == 'E' {
        'e'
    } else if c == 'F' {
        'f'
    } else if c == 'G' {
        'g'
    } else if c == 'H' {
        'h'
    } else if c == 'I' {
        'i'
    } else if c == 'J' {
        'j'
    } else if c == 'K' {
        'k'
    } else if c == 'L' {
        'l'
    } else if c == 'M' {
        'm'
    } else if c == 'N' {
        'n'
    } else if c == 'O' {
        'o'
    } else if c == 'P' {
        'p'
    } else if c == 'Q' {
        'q'
    } else if c == 'R' {
        'r'
    } else if c == 'S' {
        's'
    } else if c == 'T' {
        't'
    } else if c == 'U' {
        'u'
    } else if c == 'V' {
        'v'
    } else if c == 'W' {
        'w'
    } else if c == 'X' {
        'x'
    } else if c == 'Y' {
        'y'
    } else if c == 'Z' {
        'z'
    } else {
        c
    }
}

/// `s` with every ASCII capital lowered, other characters kept.
pub open spec fn ascii_lowered(s: Seq<char>) -> Seq<char> {
    s.map_values(|c: char| lower_char(c))
}

/// Lower the ASCII capitals of `v`.
pub fn ascii_lower_chars(v: &Vec<char>) -> (r: Vec<char>)
    ensures
        r@ == ascii_lowered(v@),
{
    let mut out: Vec<char> = Vec::new();
    let mut i: usize = 0;
    while i < v.len()
        invariant
            i <= v@.len(),
            out@ == v@.subrange(0, i as int).map_values(|c: char| lower_char(c)),
        decreases v@.len() - i,
    {
        let c = v[i];
        let lc: char = if c == 'A' {
            'a'
        } else if c == 'B' {
            'b'
        } else if c == 'C' {
            'c'
        } else if c == 'D' {
            'd'
        } else if c == 'E' {
            'e'
        } else if c == 'F' {
            'f'
        } else if c == 'G' {
            'g'
        } else if c == 'H' {
            'h'
        } else if c == 'I' {
            'i'
        } else if c == 'J' {
            'j'
        } else if c == 'K' {
            'k'
        } else if c == 'L' {
            'l'
        } else if c == 'M' {
            'm'
        } else if c == 'N' {
            'n'
        } else if c == 'O' {
            'o'
        } else if c == 'P' {
            'p'
        } else if c == 'Q' {
            'q'
        } else if c == 'R' {
            'r'
        } else if c == 'S' {
            's'
        } else if c == 'T' {
            't'
        } else if c == 'U' {
            'u'
        } else if c == 'V' {
            'v'
        } else if c == 'W' {
            'w'
        } else if c == 'X' {
            'x'
        } else if c == 'Y' {
            'y'
        } else if c == 'Z' {
            'z'
        } else {
            c
        };
        proof {
            assert(lc == lower_char(v@[i as int]));
        }
        out.push(lc);
        i = i + 1;
        proof {
            assert(out@ =~= v@.subrange(0, i as int).map_values(|c: char| lower_char(c)));
        }
    }
    proof {
        assert(v@.subrange(0, i as int) =~= v@);
    }
    out
}

/// Longest prefix of `s` that contains no whitespace character.
pub open spec fn take_word(s: Seq<char>) -> Seq<char>
    decreases s.len(),
{
    if s.len() == 0 || is_ws_char(s[0]) {
        Seq::empty()
    } else {
        seq![s[0]] + take_word(s.skip(1))
    }
}

pub proof fn lemma_take_word_len(s: Seq<char>)
    ensures
        take_word(s).len() <= s.len(),
        s.len() > 0 && !is_ws_char(s[0]) ==> take_word(s).len() >= 1,
    decreases s.len(),
{
    if s.len() > 0 && !is_ws_char(s[0]) {
        lemma_take_word_len(s.skip(1));
    }
}

/// The maximal whitespace-free words of `s`, in order.
pub open spec fn ws_words(s: Seq<char>) -> Seq<Seq<char>>
    decreases s.len(),
    via ws_words_dec
{
    if s.len() == 0 {
        Seq::empty()
    } else if is_ws_char(s[0]) {
        ws_words(s.skip(1))
    } else {
        seq![take_word(s)] + ws_words(s.skip(take_word(s).len() as int))
    }
}

#[via_fn]
proof fn ws_words_dec(s: Seq<char>) {
    lemma_take_word_len(s);
}

/// The words joined by single ASCII spaces.
pub open spec fn joined_sp(ws: Seq<Seq<char>>) -> Seq<char>
    decreases ws.len(),
{
    if ws.len() == 0 {
        Seq::empty()
    } else if ws.len() == 1 {
        ws[0]
    } else {
        ws[0] + seq![' '] + joined_sp(ws.skip(1))
    }
}

/// Every run of whitespace collapsed to one space, outer whitespace dropped:
/// what splitting on whitespace and joining with single spaces produces.
pub open spec fn normalized_ws(s: Seq<char>) -> Seq<char> {
    joined_sp(ws_words(s))
}

/// Collect the maximal whitespace-free words of `v`.
fn split_ws_words(v: &Vec<char>) -> (words: Vec<Vec<char>>)
    ensures
        words.deep_view() == ws_words(v@),
{
    let mut words: Vec<Vec<char>> = Vec::new();
    let mut i: usize = 0;
    proof {
        assert(v@.skip(0) =~= v@);
    }
    while i < v.len()
        invariant
            i <= v@.len(),
            ws_words(v@) == words.deep_view() + ws_words(v@.skip(i as int)),
        decreases v@.len() - i,
    {
        if ws_char(v[i]) {
            proof {
                assert(v@.skip(i as int).skip(1) =~= v@.skip(i + 1));
            }
            i = i + 1;
        } else {
            let ghost i0 = i as int;
            proof {
                assert(v@.skip(i0)[0] == v@[i0]);
            }
            let mut w: Vec<char> = Vec::new();
            while i < v.len() && !ws_char(v[i])
                invariant
                    i0 <= i <= v@.len(),
                    i0 < v@.len(),
                    !is_ws_char(v@[i0]),
                    take_word(v@.skip(i0)) == w@ + take_word(v@.skip(i as int)),
                    w@.len() == i - i0,
                decreases v@.len() - i,
            {
                proof {
                    assert(v@.skip(i as int)[0] == v@[i as int]);
                    assert(v@.skip(i as int).skip(1) =~= v@.skip(i + 1));
                    assert(take_word(v@.skip(i as int)) == seq![v@[i as int]] + take_word(
                        v@.skip(i + 1),
                    ));
                }
                w.push(v[i]);
                i = i + 1;
            }
            proof {
                if i < v@.len() {
                    assert(v@.skip(i as int)[0] == v@[i as int]);
                }
                assert(take_word(v@.skip(i as int)) =~= Seq::<char>::empty());
                assert(w@ =~= take_word(v@.skip(i0)));
                assert(v@.skip(i0).len() > 0 && !is_ws_char(v@.skip(i0)[0]));
                assert(v@.skip(i0).skip(take_word(v@.skip(i0)).len() as int) =~= v@.skip(
                    i0 + take_word(v@.skip(i0)).len(),
                ));
                assert(ws_words(v@.skip(i0)) == seq![take_word(v@.skip(i0))] + ws_words(
                    v@.skip(i0 + take_word(v@.skip(i0)).len()),
                ));
                assert(i0 + take_word(v@.skip(i0)).len() == i as int);
            }
            let ghost before = words.deep_view();
            let ghost beforev = words@;
            let ghost wv = w@;
            words.push(w);
            proof {
                assert forall|k: int|
                    0 <= k < words.deep_view().len() implies words.deep_view()[k] == (before
                    + seq![wv])[k] by {
                    if k < beforev.len() {
                        assert(words@[k] == beforev[k]);
                    } else {
                        assert(words@[k]@ == wv);
                    }
                }
                assert(words.deep_view() =~= before + seq![wv]);
                assert(words.deep_view() + ws_words(v@.skip(i as int)) =~= before + ws_words(
                    v@.skip(i0),
                ));
            }
        }
    }
    proof {
        assert(v@.skip(i as int) =~= Seq::<char>::empty());
        assert(words.deep_view() =~= words.deep_view() + ws_words(v@.skip(i as int)));
    }
    words
}

/// Collapse every run of whitespace to a single space and trim the ends.
pub fn normalize_ws(v: &Vec<char>) -> (r: Vec<char>)
    ensures
        r@ == normalized_ws(v@),
{
    let words: Vec<Vec<char>> = split_ws_words(v);
    let mut out: Vec<char> = Vec::new();
    let mut j: usize = 0;
    let ghost ws = words.deep_view();
    while j < words.len()
        invariant
            j <= ws.len(),
            ws == words.deep_view(),
            ws.len() == words@.len(),
            j == 0 ==> out@ == Seq::<char>::empty(),
            0 < j < ws.len() ==> joined_sp(ws) == out@ + seq![' '] + joined_sp(
                ws.skip(j as int),
            ),
            j == ws.len() && j > 0 ==> out@ == joined_sp(ws),
        decreases ws.len() - j,
    {
        let ghost pre = out@;
        if j > 0 {
            out.push(' ');
        }
        let w: &Vec<char> = &words[j];
        let mut k: usize = 0;
        let ghost mid = out@;
        while k < w.len()
            invariant
                k <= w@.len(),
                out@ == mid + w@.subrange(0, k as int),
            decreases w@.len() - k,
        {
            out.push(w[k]);
            k = k + 1;
            proof {
                assert(out@ =~= mid + w@.subrange(0, k as int));
            }
        }
        proof {
            assert(w@.subrange(0, w@.len() as int) =~= w@);
            assert(ws[j as int] == w@);
            if j == 0 {
                assert(out@ =~= ws[0]);
                if ws.len() > 1 {
                    assert(joined_sp(ws) == ws[0] + seq![' '] + joined_sp(ws.skip(1)));
                    assert(joined_sp(ws) =~= out@ + seq![' '] + joined_sp(ws.skip(1)));
                } else {
                    assert(joined_sp(ws) == ws[0]);
                }
            } else {
                let tail = ws.skip(j as int);
                assert(joined_sp(ws) == pre + seq![' '] + joined_sp(tail));
                assert(tail[0] == ws[j as int]);
                if tail.len() > 1 {
                    assert(joined_sp(tail) == tail[0] + seq![' '] + joined_sp(tail.skip(1)));
                    assert(tail.skip(1) =~= ws.skip(j + 1));
                    assert(joined_sp(ws) =~= out@ + seq![' '] + joined_sp(ws.skip(j + 1)));
                } else {
                    assert(joined_sp(tail) == tail[0]);
                    assert(out@ =~= joined_sp(ws));
                }
            }
        }
        j = j + 1;
    }
    proof {
        if ws.len() == 0 {
            assert(joined_sp(ws) =~= Seq::<char>::empty());
        }
    }
    out
}

/// `s` with every control character removed.
pub open spec fn without_control(s: Seq<char>) -> Seq<char>
    decreases s.len(),
{
    if s.len() == 0 {
        s
    } else if is_control_char(s[0]) {
        without_control(s.skip(1))
    } else {
        seq![s[0]] + without_control(s.skip(1))
    }
}

/// Remove every control character.
pub fn strip_control(v: &Vec<char>) -> (r: Vec<char>)
    ensures
        r@ == without_control(v@),
{
    let mut out: Vec<char> = Vec::new();
    let mut i: usize = 0;
    proof {
        assert(v@.skip(0) =~= v@);
    }
    while i < v.len()
        invariant
            i <= v@.len(),
            without_control(v@) == out@ + without_control(v@.skip(i as int)),
        decreases v@.len() - i,
    {
        proof {
            assert(v@.skip(i as int)[0] == v@[i as int]);
            assert(v@.skip(i as int).skip(1) =~= v@.skip(i + 1));
        }
        if !control_char(v[i]) {
            out.push(v[i]);
        }
        i = i + 1;
    }
    proof {
        assert(v@.skip(i as int) =~= Seq::<char>::empty());
        assert(out@ =~= out@ + without_control(v@.skip(i as int)));
    }
    out
}

/// `s` without leading whitespace.
pub open spec fn trim_start_sp(s: Seq<char>) -> Seq<char>
    decreases s.len(),
{
    if s.len() > 0 && is_ws_char(s[0]) {
        trim_start_sp(s.skip(1))
    } else {
        s
    }
}

/// `s` without trailing whitespace.
pub open spec fn trim_end_sp(s: Seq<char>) -> Seq<char>
    decreases s.len(),
{
    if s.len() > 0 && is_ws_char(s[s.len() - 1]) {
        trim_end_sp(s.drop_last())
    } else {
        s
    }
}

/// `s` without leading and trailing whitespace: what `str::trim` keeps.
pub open spec fn trimmed(s: Seq<char>) -> Seq<char> {
    trim_end_sp(trim_start_sp(s))
}

/// Drop leading and trailing whitespace.
pub fn trim_chars(v: &Vec<char>) -> (r: Vec<char>)
    ensures
        r@ == trimmed(v@),
{
    let mut a: usize = 0;
    proof {
        assert(v@.skip(0) =~= v@);
    }
    while a < v.len() && ws_char(v[a])
        invariant
            a <= v@.len(),
            trim_start_sp(v@) == trim_start_sp(v@.skip(a as int)),
        decreases v@.len() - a,
    {
        proof {
            assert(v@.skip(a as int)[0] == v@[a as int]);
            assert(v@.skip(a as int).skip(1) =~= v@.skip(a + 1));
        }
        a = a + 1;
    }
    proof {
        if a < v@.len() {
            assert(v@.skip(a as int)[0] == v@[a as int]);
        }
        assert(trim_start_sp(v@) == v@.skip(a as int));
    }
    let mut b: usize = v.len();
    while b > a && ws_char(v[b - 1])
        invariant
            a <= b <= v@.len(),
            trim_end_sp(v@.skip(a as int)) == trim_end_sp(v@.subrange(a as int, b as int)),
        decreases b,
    {
        proof {
            let cur = v@.subrange(a as int, b as int);
            assert(cur[cur.len() - 1] == v@[b - 1]);
            assert(cur.drop_last() =~= v@.subrange(a as int, b - 1));
        }
        b = b - 1;
    }
    proof {
        let cur = v@.subrange(a as int, b as int);
        if b > a {
            assert(cur[cur.len() - 1] == v@[b - 1]);
        }
        assert(trim_end_sp(cur) == cur);
    }
    let mut out: Vec<char> = Vec::new();
    let mut i: usize = a;
    while i < b
        invariant
            a <= i <= b <= v@.len(),
            out@ == v@.subrange(a as int, i as int),
        decreases b - i,
    {
        out.push(v[i]);
        i = i + 1;
        proof {
            assert(out@ =~= v@.subrange(a as int, i as int));
        }
    }
    out
}

/// Lexicographic order on character sequences by code point, the order in
/// which `String` values compare.
pub open spec fn lex_le(a: Seq<char>, b: Seq<char>) -> bool
    decreases a.len(),
{
    if a.len() == 0 {
        true
    } else if b.len() == 0 {
        false
    } else if a[0] != b[0] {
        a[0] < b[0]
    } else {
        lex_le(a.skip(1), b.skip(1))
    }
}

pub proof fn lemma_lex_le_total(a: Seq<char>, b: Seq<char>)
    ensures
        lex_le(a, b) || lex_le(b, a),
        lex_le(a, b) && lex_le(b, a) ==> a == b,
    decreases a.len(),
{
    if a.len() == 0 {
        if b.len() == 0 {
            assert(a =~= b);
        }
    } else if b.len() == 0 {
    } else if a[0] != b[0] {
    } else {
        lemma_lex_le_total(a.skip(1), b.skip(1));
        if lex_le(a, b) && lex_le(b, a) {
            assert(a.skip(1) == b.skip(1));
            assert(a =~= seq![a[0]] + a.skip(1));
            assert(b =~= seq![b[0]] + b.skip(1));
        }
    }
}

pub proof fn lemma_lex_le_trans(a: Seq<char>, b: Seq<char>, c: Seq<char>)
    requires
        lex_le(a, b),
        lex_le(b, c),
    ensures
        lex_le(a, c),
    decreases a.len(),
{
    if a.len() == 0 {
    } else if b.len() == 0 {
    } else if c.len() == 0 {
    } else if a[0] == b[0] && b[0] == c[0] {
        lemma_lex_le_trans(a.skip(1), b.skip(1), c.skip(1));
    }
}

/// Compare two character buffers in lexicographic order.
pub fn lex_le_chars(a: &Vec<char>, b: &Vec<char>) -> (r: bool)
    ensures
        r == lex_le(a@, b@),
{
    let mut i: usize = 0;
    proof {
        assert(a@.skip(0) =~= a@);
        assert(b@.skip(0) =~= b@);
    }
    while i < a.len() && i < b.len()
        invariant
            i <= a@.len(),
            i <= b@.len(),
            lex_le(a@, b@) == lex_le(a@.skip(i as int), b@.skip(i as int)),
        decreases a@.len() - i,
    {
        proof {
            assert(a@.skip(i as int)[0] == a@[i as int]);
            assert(b@.skip(i as int)[0] == b@[i as int]);
            assert(a@.skip(i as int).skip(1) =~= a@.skip(i + 1));
            assert(b@.skip(i as int).skip(1) =~= b@.skip(i + 1));
        }
        if a[i] != b[i] {
            return a[i] < b[i];
        }
        i = i + 1;
    }
    a.len() <= b.len()
}

/// Whether `s` ends with `suffix`.
pub open spec fn ends_with(s: Seq<char>, suffix: Seq<char>) -> bool {
    s.len() >= suffix.len() && s.skip(s.len() - suffix.len()) == suffix
}

/// Test whether `v` ends with `suffix`.
pub fn ends_with_chars(v: &Vec<char>, suffix: &Vec<char>) -> (r: bool)
    ensures
        r == ends_with(v@, suffix@),
{
    if suffix.len() > v.len() {
        return false;
    }
    let start: usize = v.len() - suffix.len();
    let r = matches_at(v, suffix, start);
    proof {
        assert(v@.subrange(start as int, start + suffix@.len()) =~= v@.skip(
            v@.len() - suffix@.len(),
        ));
    }
    r
}

/// Whether two character buffers hold the same text.
pub fn chars_eq(a: &Vec<char>, b: &Vec<char>) -> (r: bool)
    ensures
        r == (a@ == b@),
{
    if a.len() != b.len() {
        proof {
            assert(a@.len() != b@.len());
        }
        return false;
    }
    let mut i: usize = 0;
    while i < a.len()
        invariant
            a@.len() == b@.len(),
            i <= a@.len(),
            a@.subrange(0, i as int) == b@.subrange(0, i as int),
        decreases a@.len() - i,
    {
        if a[i] != b[i] {
            proof {
                assert(a@.subrange(0, a@.len() as int)[i as int] == a@[i as int]);
            }
            return false;
        }
        i = i + 1;
        proof {
            assert(a@.subrange(0, i as int) =~= b@.subrange(0, i as int));
        }
    }
    proof {
        assert(a@ =~= a@.subrange(0, i as int));
        assert(b@ =~= b@.subrange(0, i as int));
    }
    true
}

} // verus!
