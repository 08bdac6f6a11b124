//! Character sequences: splitting on a pattern, joining, trimming and
//! searching, stated over `Seq<char>` and carried out on `Vec<char>`.

use vstd::prelude::*;
use vstd::utf8::{decode_utf8, valid_utf8};

verus! {

/// `char::is_whitespace`: the characters of Unicode's White_Space property.
pub open spec fn is_space(c: char) -> bool {
    let u = c as u32;
    (9 <= u <= 13) || u == 32 || u == 0x85 || u == 0xa0 || u == 0x1680 || (0x2000 <= u
        <= 0x200a) || u == 0x2028 || u == 0x2029 || u == 0x202f || u == 0x205f || u == 0x3000
}

/// `s` with its leading whitespace removed.
pub open spec fn trim_start(s: Seq<char>) -> Seq<char>
    decreases s.len(),
{
    if s.len() > 0 && is_space(s[0]) {
        trim_start(s.drop_first())
    } else {
        s
    }
}

/// `s` with its trailing whitespace removed.
pub open spec fn trim_end(s: Seq<char>) -> Seq<char>
    decreases s.len(),
{
    if s.len() > 0 && is_space(s.last()) {
        trim_end(s.drop_last())
    } else {
        s
    }
}

/// `s` without whitespace at either end, as `str::trim` gives it.
pub open spec fn trim(s: Seq<char>) -> Seq<char> {
    trim_end(trim_start(s))
}

/// `p` occurs in `s` at index `i`.
pub open spec fn occurs_at(s: Seq<char>, p: Seq<char>, i: int) -> bool {
    0 <= i && i + p.len() <= s.len() && s.subrange(i, i + p.len()) == p
}

pub open spec fn starts_with(s: Seq<char>, p: Seq<char>) -> bool {
    occurs_at(s, p, 0)
}

pub open spec fn contains(s: Seq<char>, p: Seq<char>) -> bool {
    exists|i: int| occurs_at(s, p, i)
}

/// The pieces of `s` between the occurrences of `p`, found from the left
/// without overlap, as `str::split` with a string pattern gives them.
/// There is always at least one piece.
pub open spec fn split(s: Seq<char>, p: Seq<char>) -> Seq<Seq<char>>
    decreases s.len(),
{
    if p.len() == 0 || s.len() < p.len() {
        seq![s]
    } else if s.subrange(0, p.len() as int) == p {
        seq![Seq::<char>::empty()] + split(s.subrange(p.len() as int, s.len() as int), p)
    } else {
        let rest = split(s.drop_first(), p);
        rest.update(0, seq![s[0]] + rest[0])
    }
}

/// The pieces `ps` with `sep` between each two, as `join` on a slice gives it.
pub open spec fn join(ps: Seq<Seq<char>>, sep: Seq<char>) -> Seq<char>
    decreases ps.len(),
{
    if ps.len() == 0 {
        Seq::empty()
    } else if ps.len() == 1 {
        ps[0]
    } else {
        join(ps.drop_last(), sep) + sep + ps.last()
    }
}

/// Every occurrence of `p` in `s` replaced by `r`, as `str::replace` gives it
/// for a non-empty pattern.
pub open spec fn replace(s: Seq<char>, p: Seq<char>, r: Seq<char>) -> Seq<char> {
    join(split(s, p), r)
}

/// The views of a sequence of character vectors.
pub open spec fn views(v: Seq<Vec<char>>) -> Seq<Seq<char>> {
    v.map_values(|x: Vec<char>| x@)
}

pub proof fn lemma_split_nonempty(s: Seq<char>, p: Seq<char>)
    ensures
        split(s, p).len() >= 1,
    decreases s.len(),
{
    if p.len() == 0 || s.len() < p.len() {
    } else if s.subrange(0, p.len() as int) == p {
        lemma_split_nonempty(s.subrange(p.len() as int, s.len() as int), p);
    } else {
        lemma_split_nonempty(s.drop_first(), p);
    }
}

/// `c` is whitespace.
pub fn is_space_char(c: char) -> (r: bool)
    ensures
        r == is_space(c),
{
    let u = c as u32;
    (9 <= u && u <= 13) || u == 32 || u == 0x85 || u == 0xa0 || u == 0x1680 || (0x2000 <= u && u
        <= 0x200a) || u == 0x2028 || u == 0x2029 || u == 0x202f || u == 0x205f || u == 0x3000
}

/// The characters of `s` from `lo` up to `hi`.
pub fn copy_range(s: &Vec<char>, lo: usize, hi: usize) -> (r: Vec<char>)
    requires
        lo <= hi <= s@.len(),
    ensures
        r@ == s@.subrange(lo as int, hi as int),
{
    let mut r: Vec<char> = Vec::new();
    let mut i: usize = lo;
    while i < hi
        invariant
            lo <= i <= hi <= s@.len(),
            r@ == s@.subrange(lo as int, i as int),
        decreases hi - i,
    {
        r.push(s[i]);
        assert(r@ =~= s@.subrange(lo as int, i + 1));
        i += 1;
    }
    r
}

/// Whether `p` occurs in `s` at index `i`.
pub fn occurs_at_exec(s: &Vec<char>, p: &Vec<char>, i: usize) -> (r: bool)
    ensures
        r == occurs_at(s@, p@, i as int),
{
    if p.len() > s.len() || i > s.len() - p.len() {
        return false;
    }
    let mut j: usize = 0;
    while j < p.len()
        invariant
            i + p@.len() <= s@.len(),
            s@.len() <= usize::MAX,
            j <= p@.len(),
            forall|k: int| 0 <= k < j ==> s@[i + k] == p@[k],
        decreases p@.len() - j,
    {
        if s[i + j] != p[j] {
            assert(s@.subrange(i as int, i + p@.len())[j as int] != p@[j as int]);
            return false;
        }
        j += 1;
    }
    assert(s@.subrange(i as int, i + p@.len()) =~= p@);
    true
}

/// Whether `s` begins with `p`.
pub fn starts_with_exec(s: &Vec<char>, p: &Vec<char>) -> (r: bool)
    ensures
        r == starts_with(s@, p@),
{
    occurs_at_exec(s, p, 0)
}

/// Whether `p` occurs anywhere in `s`.
pub fn contains_exec(s: &Vec<char>, p: &Vec<char>) -> (r: bool)
    ensures
        r == contains(s@, p@),
{
    if p.len() > s.len() {
        return false;
    }
    let last = s.len() - p.len();
    let mut i: usize = 0;
    while i < last
        invariant
            p@.len() <= s@.len(),
            last == s@.len() - p@.len(),
            i <= last,
            forall|k: int| 0 <= k < i ==> !occurs_at(s@, p@, k),
        decreases last - i,
    {
        if occurs_at_exec(s, p, i) {
            return true;
        }
        i += 1;
    }
    if occurs_at_exec(s, p, last) {
        return true;
    }
    assert forall|k: int| !occurs_at(s@, p@, k) by {
        if 0 <= k <= i {
        }
    }
    false
}

/// Splitting at an occurrence of `p` at `i`: an empty piece, then the pieces after it.
proof fn lemma_split_at_match(s: Seq<char>, p: Seq<char>, i: int)
    requires
        p.len() > 0,
        occurs_at(s, p, i),
    ensures
        split(s.subrange(i, s.len() as int), p) == seq![Seq::<char>::empty()] + split(
            s.subrange(i + p.len(), s.len() as int),
            p,
        ),
{
    let rest = s.subrange(i, s.len() as int);
    assert(rest.subrange(0, p.len() as int) =~= p);
    assert(rest.subrange(p.len() as int, rest.len() as int) =~= s.subrange(
        i + p.len(),
        s.len() as int,
    ));
}

/// Splitting where `p` does not occur at `i`: the character at `i` joins the first piece.
proof fn lemma_split_at_char(s: Seq<char>, p: Seq<char>, i: int)
    requires
        p.len() > 0,
        0 <= i < s.len(),
        !occurs_at(s, p, i),
    ensures
        ({
            let tail = split(s.subrange(i + 1, s.len() as int), p);
            split(s.subrange(i, s.len() as int), p) == tail.update(0, seq![s[i]] + tail[0])
        }),
{
    let rest = s.subrange(i, s.len() as int);
    let after = s.subrange(i + 1, s.len() as int);
    assert(rest.drop_first() =~= after);
    if rest.len() < p.len() {
        assert(seq![s[i]] + after =~= rest);
        assert(seq![rest] =~= seq![after].update(0, seq![s[i]] + after));
    } else {
        assert(rest.subrange(0, p.len() as int) =~= s.subrange(i, i + p.len()));
    }
}

/// The pieces of `s` between the occurrences of `p`.
pub fn split_exec(s: &Vec<char>, p: &Vec<char>) -> (r: Vec<Vec<char>>)
    requires
        p@.len() > 0,
    ensures
        views(r@) == split(s@, p@),
{
    let mut out: Vec<Vec<char>> = Vec::new();
    let mut cur: Vec<char> = Vec::new();
    let mut i: usize = 0;
    assert(s@.subrange(0, s@.len() as int) =~= s@);
    proof {
        lemma_split_nonempty(s@, p@);
        assert(split(s@, p@).update(0, cur@ + split(s@, p@)[0]) =~= split(s@, p@));
    }
    while i < s.len()
        invariant
            p@.len() > 0,
            i <= s@.len(),
            ({
                let tail = split(s@.subrange(i as int, s@.len() as int), p@);
                split(s@, p@) == views(out@) + tail.update(0, cur@ + tail[0])
            }),
        decreases s@.len() - i,
    {
        let ghost old_out = out@;
        let ghost old_cur = cur@;
        let ghost tail = split(s@.subrange(i as int, s@.len() as int), p@);
        if occurs_at_exec(s, p, i) {
            let ghost next = split(s@.subrange(i + p@.len(), s@.len() as int), p@);
            proof {
                lemma_split_at_match(s@, p@, i as int);
                lemma_split_nonempty(s@.subrange(i + p@.len(), s@.len() as int), p@);
            }
            out.push(cur);
            cur = Vec::new();
            i = i + p.len();
            proof {
                assert(views(out@) =~= views(old_out).push(old_cur));
                assert(tail.update(0, old_cur + tail[0]) =~= seq![old_cur] + next);
                assert(next.update(0, cur@ + next[0]) =~= next);
            }
        } else {
            let ghost next = split(s@.subrange(i + 1, s@.len() as int), p@);
            proof {
                lemma_split_at_char(s@, p@, i as int);
                lemma_split_nonempty(s@.subrange(i + 1, s@.len() as int), p@);
            }
            cur.push(s[i]);
            i = i + 1;
            proof {
                assert(old_cur + (seq![s@[i - 1]] + next[0]) =~= cur@ + next[0]);
                assert(tail.update(0, old_cur + tail[0]) =~= next.update(0, cur@ + next[0]));
            }
        }
    }
    let ghost last_cur = cur@;
    let ghost before = out@;
    assert(s@.subrange(i as int, s@.len() as int) =~= Seq::<char>::empty());
    out.push(cur);
    proof {
        let tail = split(Seq::<char>::empty(), p@);
        assert(tail.update(0, last_cur + tail[0]) =~= seq![last_cur]);
        assert(views(out@) =~= views(before).push(last_cur));
    }
    out
}

/// Appends the characters of `x` to `r`.
pub fn extend(r: &mut Vec<char>, x: &Vec<char>)
    ensures
        final(r)@ == old(r)@ + x@,
{
    let mut i: usize = 0;
    while i < x.len()
        invariant
            i <= x@.len(),
            r@ == old(r)@ + x@.subrange(0, i as int),
        decreases x@.len() - i,
    {
        r.push(x[i]);
        assert(r@ =~= old(r)@ + x@.subrange(0, i + 1));
        i += 1;
    }
    assert(x@.subrange(0, x@.len() as int) =~= x@);
}

/// The pieces with `sep` between each two.
pub fn join_exec(ps: &Vec<Vec<char>>, sep: &Vec<char>) -> (r: Vec<char>)
    ensures
        r@ == join(views(ps@), sep@),
{
    let mut r: Vec<char> = Vec::new();
    let mut i: usize = 0;
    while i < ps.len()
        invariant
            i <= ps@.len(),
            r@ == join(views(ps@).subrange(0, i as int), sep@),
        decreases ps@.len() - i,
    {
        let ghost done = views(ps@).subrange(0, i as int);
        let ghost more = views(ps@).subrange(0, i + 1);
        assert(more.drop_last() =~= done);
        if i > 0 {
            extend(&mut r, sep);
        }
        extend(&mut r, &ps[i]);
        proof {
            if i == 0 {
                assert(r@ =~= more[0]);
            }
        }
        i += 1;
    }
    assert(views(ps@).subrange(0, ps@.len() as int) =~= views(ps@));
    r
}

proof fn lemma_trim_start_skip(s: Seq<char>, lo: int)
    requires
        0 <= lo < s.len(),
        trim_start(s) == trim_start(s.subrange(lo, s.len() as int)),
        is_space(s[lo]),
    ensures
        trim_start(s) == trim_start(s.subrange(lo + 1, s.len() as int)),
{
    assert(s.subrange(lo, s.len() as int).drop_first() =~= s.subrange(lo + 1, s.len() as int));
}

proof fn lemma_trim_end_skip(s: Seq<char>, hi: int)
    requires
        0 < hi <= s.len(),
        trim_end(s) == trim_end(s.subrange(0, hi)),
        is_space(s[hi - 1]),
    ensures
        trim_end(s) == trim_end(s.subrange(0, hi - 1)),
{
    assert(s.subrange(0, hi).drop_last() =~= s.subrange(0, hi - 1));
}

/// `s` without whitespace at either end.
pub fn trim_exec(s: &Vec<char>) -> (r: Vec<char>)
    ensures
        r@ == trim(s@),
{
    let mut lo: usize = 0;
    assert(s@.subrange(0, s@.len() as int) =~= s@);
    while lo < s.len() && is_space_char(s[lo])
        invariant
            lo <= s@.len(),
            trim_start(s@) == trim_start(s@.subrange(lo as int, s@.len() as int)),
        decreases s@.len() - lo,
    {
        proof {
            lemma_trim_start_skip(s@, lo as int);
        }
        lo += 1;
    }
    let ghost front = s@.subrange(lo as int, s@.len() as int);
    assert(trim_start(s@) == front);
    let mut hi: usize = s.len();
    assert(front.subrange(0, front.len() as int) =~= front);
    while hi > lo && is_space_char(s[hi - 1])
        invariant
            lo <= hi <= s@.len(),
            front == s@.subrange(lo as int, s@.len() as int),
            trim_end(front) == trim_end(front.subrange(0, hi - lo)),
        decreases hi - lo,
    {
        proof {
            lemma_trim_end_skip(front, (hi - lo) as int);
        }
        hi -= 1;
    }
    assert(front.subrange(0, hi - lo) =~= s@.subrange(lo as int, hi as int));
    copy_range(s, lo, hi)
}

/// Relies on `str::chars`: the characters of `s`, in order.
#[verifier::external_body]
pub(crate) fn chars_of(s: &str) -> (r: Vec<char>)
    ensures
        r@ == s@,
{
    s.chars().collect()
}

/// Relies on `String`'s `FromIterator<&char>`: the string of these characters, in order.
#[verifier::external_body]
pub(crate) fn string_of(v: &Vec<char>) -> (r: String)
    ensures
        r@ == v@,
{
    v.iter().collect()
}

/// Relies on `std::str::from_utf8`: it accepts exactly the valid UTF-8
/// sequences, and the text it gives is their decoding.
#[verifier::external_body]
pub(crate) fn utf8_text<'a>(b: &'a [u8]) -> (r: Option<&'a str>)
    ensures
        r is Some <==> valid_utf8(b@),
        r matches Some(t) ==> t@ == decode_utf8(b@),
{
    std::str::from_utf8(b).ok()
}

/// `a` followed by `b`.
pub fn concat(a: &str, b: &str) -> (r: String)
    ensures
        r@ == a@ + b@,
{
    let mut r = String::from_str(a);
    r.append(b);
    r
}

/// Whether `a` and `b` hold the same characters.
pub fn same_text(a: &Vec<char>, b: &Vec<char>) -> (r: bool)
    ensures
        r == (a@ == b@),
{
    if a.len() != b.len() {
        return false;
    }
    let r = occurs_at_exec(a, b, 0);
    assert(a@.subrange(0, b@.len() as int) =~= a@);
    r
}

/// Every occurrence of `p` in `s` replaced by `r`.
pub fn replace_exec(s: &Vec<char>, p: &Vec<char>, r: &Vec<char>) -> (out: Vec<char>)
    requires
        p@.len() > 0,
    ensures
        out@ == replace(s@, p@, r@),
{
    let pieces = split_exec(s, p);
    join_exec(&pieces, r)
}

/// The character of a decimal digit.
pub open spec fn digit_char(d: nat) -> char {
    if d == 0 {
        '0'
    } else if d == 1 {
        '1'
    } else if d == 2 {
        '2'
    } else if d == 3 {
        '3'
    } else if d == 4 {
        '4'
    } else if d == 5 {
        '5'
    } else if d == 6 {
        '6'
    } else if d == 7 {
        '7'
    } else if d == 8 {
        '8'
    } else {
        '9'
    }
}

/// The decimal digits of `n`, most significant first, without leading zeros.
pub open spec fn decimal(n: nat) -> Seq<char>
    decreases n,
{
    if n < 10 {
        seq![digit_char(n)]
    } else {
        decimal(n / 10).push(digit_char(n % 10))
    }
}

fn digit(d: u16) -> (c: char)
    requires
        d < 10,
    ensures
        c == digit_char(d as nat),
{
    if d == 0 {
        '0'
    } else if d == 1 {
        '1'
    } else if d == 2 {
        '2'
    } else if d == 3 {
        '3'
    } else if d == 4 {
        '4'
    } else if d == 5 {
        '5'
    } else if d == 6 {
        '6'
    } else if d == 7 {
        '7'
    } else if d == 8 {
        '8'
    } else {
        '9'
    }
}

/// The decimal digits of `n`.
pub fn decimal_exec(n: u16) -> (r: Vec<char>)
    ensures
        r@ == decimal(n as nat),
    decreases n,
{
    let d = digit(n % 10);
    if n < 10 {
        let mut v: Vec<char> = Vec::new();
        v.push(d);
        v
    } else {
        let mut v = decimal_exec(n / 10);
        v.push(d);
        v
    }
}

} // verus!
