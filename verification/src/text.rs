//! Character-level text utilities: conversions between `String` and
//! `Vec<char>`, equality tests, splitting on a separator, and trimming.
//! All contracts are stated over the `Seq<char>` views.

use vstd::prelude::*;
use vstd::string::StrSliceExecFns;

verus! {

/// Relies on `String::push`: appends exactly the one character.
#[verifier::external_body]
pub fn push_char(s: &mut String, c: char)
    ensures
        final(s)@ == old(s)@.push(c),
{
    s.push(c)
}

/// The characters of a string, as an indexable vector.
pub fn str_to_chars(s: &str) -> (r: Vec<char>)
    ensures
        r@ == s@,
{
    let n = s.unicode_len();
    let mut r: Vec<char> = Vec::new();
    let mut i: usize = 0;
    while i < n
        invariant
            n == s@.len(),
            i <= n,
            r@ == s@.take(i as int),
        decreases n - i,
    {
        r.push(s.get_char(i));
        i = i + 1;
        proof {
            assert(r@ =~= s@.take(i as int));
        }
    }
    proof {
        assert(s@.take(n as int) =~= s@);
    }
    r
}

/// A string holding exactly the given characters.
pub fn chars_to_string(v: &Vec<char>) -> (r: String)
    ensures
        r@ == v@,
{
    let mut r = String::new();
    let mut i: usize = 0;
    while i < v.len()
        invariant
            i <= v@.len(),
            r@ == v@.take(i as int),
        decreases v@.len() - i,
    {
        push_char(&mut r, v[i]);
        i = i + 1;
        proof {
            assert(r@ =~= v@.take(i as int));
        }
    }
    proof {
        assert(v@.take(v@.len() as int) =~= v@);
    }
    r
}

/// Character-for-character equality of two string slices.
pub fn str_eq(a: &str, b: &str) -> (r: bool)
    ensures
        r == (a@ == b@),
{
    let na = a.unicode_len();
    let nb = b.unicode_len();
    if na != nb {
        return false;
    }
    let mut i: usize = 0;
    while i < na
        invariant
            na == a@.len(),
            na == b@.len(),
            i <= na,
            forall|k: int| 0 <= k < i ==> a@[k] == b@[k],
        decreases na - i,
    {
        if a.get_char(i) != b.get_char(i) {
            return false;
        }
        i = i + 1;
    }
    proof {
        assert(a@ =~= b@);
    }
    true
}

/// Equality of a character vector against a string slice.
pub fn chars_eq_str(v: &Vec<char>, s: &str) -> (r: bool)
    ensures
        r == (v@ == s@),
{
    let n = s.unicode_len();
    if v.len() != n {
        return false;
    }
    let mut i: usize = 0;
    while i < n
        invariant
            n == s@.len(),
            n == v@.len(),
            i <= n,
            forall|k: int| 0 <= k < i ==> v@[k] == s@[k],
        decreases n - i,
    {
        if v[i] != s.get_char(i) {
            return false;
        }
        i = i + 1;
    }
    proof {
        assert(v@ =~= s@);
    }
    true
}

/// Appends every character of `src` to `dst`.
pub fn push_all(dst: &mut Vec<char>, src: &Vec<char>)
    ensures
        final(dst)@ == old(dst)@ + src@,
{
    let mut i: usize = 0;
    while i < src.len()
        invariant
            i <= src@.len(),
            dst@ == old(dst)@ + src@.take(i as int),
        decreases src@.len() - i,
    {
        dst.push(src[i]);
        i = i + 1;
        proof {
            assert(dst@ =~= old(dst)@ + src@.take(i as int));
        }
    }
    proof {
        assert(old(dst)@ + src@.take(src@.len() as int) =~= old(dst)@ + src@);
    }
}

/// The views of a sequence of character vectors.
pub open spec fn vec_views(s: Seq<Vec<char>>) -> Seq<Seq<char>> {
    Seq::new(s.len(), |i: int| s[i]@)
}

/// `ss` with `p` prefixed onto its first piece.
pub open spec fn prefix_first(p: Seq<char>, ss: Seq<Seq<char>>) -> Seq<Seq<char>>
    recommends
        ss.len() > 0,
{
    ss.update(0, p + ss[0])
}

/// The pieces of `line` between the non-overlapping occurrences of `sep`,
/// leftmost occurrence first; `line` alone when `sep` is empty or never
/// occurs. A trailing occurrence of `sep` yields a trailing empty piece.
pub open spec fn split_on(line: Seq<char>, sep: Seq<char>) -> Seq<Seq<char>>
    decreases line.len(),
{
    if sep.len() == 0 || line.len() < sep.len() {
        seq![line]
    } else if line.take(sep.len() as int) == sep {
        seq![Seq::<char>::empty()] + split_on(line.skip(sep.len() as int), sep)
    } else {
        prefix_first(seq![line[0]], split_on(line.skip(1), sep))
    }
}

pub proof fn lemma_split_len(line: Seq<char>, sep: Seq<char>)
    ensures
        split_on(line, sep).len() >= 1,
    decreases line.len(),
{
    if sep.len() == 0 || line.len() < sep.len() {
    } else if line.take(sep.len() as int) == sep {
    } else {
        lemma_split_len(line.skip(1), sep);
    }
}

/// Peeling one character off the front of `line` commutes with `split_on`
/// whenever no occurrence of `sep` starts at the front.
pub proof fn lemma_split_step_char(line: Seq<char>, sep: Seq<char>)
    requires
        sep.len() > 0,
        line.len() > 0,
        line.len() < sep.len() || line.take(sep.len() as int) != sep,
    ensures
        split_on(line, sep) == prefix_first(seq![line[0]], split_on(line.skip(1), sep)),
{
    if line.len() < sep.len() {
        assert(line.skip(1).len() < sep.len());
        assert(split_on(line.skip(1), sep) == seq![line.skip(1)]);
        assert(seq![line[0]] + line.skip(1) =~= line);
        assert(prefix_first(seq![line[0]], seq![line.skip(1)]) =~~= seq![line]);
    }
}

fn is_match_at(line: &Vec<char>, sep: &Vec<char>, i: usize) -> (b: bool)
    requires
        i + sep@.len() <= line@.len(),
    ensures
        b == (line@.subrange(i as int, i + sep@.len()) == sep@),
{
    let n = line.len();
    let mut k: usize = 0;
    while k < sep.len()
        invariant
            n == line@.len(),
            i + sep@.len() <= line@.len(),
            k <= sep@.len(),
            forall|t: int| 0 <= t < k ==> line@[i + t] == sep@[t],
        decreases sep@.len() - k,
    {
        if line[i + k] != sep[k] {
            proof {
                assert(line@.subrange(i as int, i + sep@.len())[k as int] == line@[i + k]);
            }
            return false;
        }
        k = k + 1;
    }
    proof {
        assert(line@.subrange(i as int, i + sep@.len()) =~= sep@);
    }
    true
}

/// Splits `line` on every non-overlapping occurrence of `sep`.
pub fn split_chars(line: &Vec<char>, sep: &Vec<char>) -> (r: Vec<Vec<char>>)
    requires
        sep@.len() > 0,
    ensures
        vec_views(r@) == split_on(line@, sep@),
{
    let mut r: Vec<Vec<char>> = Vec::new();
    let mut cur: Vec<char> = Vec::new();
    let mut i: usize = 0;
    proof {
        lemma_split_len(line@, sep@);
        assert(line@.skip(0) =~= line@);
        assert(prefix_first(Seq::<char>::empty(), split_on(line@, sep@)) =~~= split_on(
            line@,
            sep@,
        ));
        assert(vec_views(Seq::<Vec<char>>::empty()) + split_on(line@, sep@) =~~= split_on(
            line@,
            sep@,
        ));
    }
    while i < line.len()
        invariant
            sep@.len() > 0,
            i <= line@.len(),
            split_on(line@, sep@) == vec_views(r@) + prefix_first(
                cur@,
                split_on(line@.skip(i as int), sep@),
            ),
        decreases line@.len() - i,
    {
        let ghost rem = line@.skip(i as int);
        proof {
            lemma_split_len(rem, sep@);
        }
        if sep.len() <= line.len() - i && is_match_at(line, sep, i) {
            proof {
                assert(rem.take(sep@.len() as int) =~= line@.subrange(i as int, i + sep@.len()));
                assert(rem.skip(sep@.len() as int) =~= line@.skip(i + sep@.len()));
                lemma_split_len(line@.skip(i + sep@.len()), sep@);
                assert(prefix_first(cur@, split_on(rem, sep@)) =~~= seq![cur@] + split_on(
                    line@.skip(i + sep@.len()),
                    sep@,
                ));
            }
            let ghost old_r = r@;
            let ghost old_cur = cur@;
            r.push(cur);
            cur = Vec::new();
            i = i + sep.len();
            proof {
                lemma_split_len(line@.skip(i as int), sep@);
                assert(vec_views(r@) =~~= vec_views(old_r) + seq![old_cur]);
                assert(prefix_first(cur@, split_on(line@.skip(i as int), sep@)) =~~= split_on(
                    line@.skip(i as int),
                    sep@,
                ));
            }
        } else {
            proof {
                lemma_split_len(line@.skip(i + 1), sep@);
                if rem.len() >= sep@.len() {
                    assert(rem.take(sep@.len() as int) =~= line@.subrange(
                        i as int,
                        i + sep@.len(),
                    ));
                }
                lemma_split_step_char(rem, sep@);
                assert(rem.skip(1) =~= line@.skip(i + 1));
            }
            let ghost old_cur = cur@;
            let c = line[i];
            cur.push(c);
            i = i + 1;
            proof {
                let x = split_on(line@.skip(i as int), sep@);
                assert(prefix_first(old_cur, prefix_first(seq![c], x)) =~~= prefix_first(
                    cur@,
                    x,
                ));
            }
        }
    }
    proof {
        assert(line@.skip(i as int) =~= Seq::<char>::empty());
        assert(split_on(Seq::<char>::empty(), sep@) == seq![Seq::<char>::empty()]);
        assert(prefix_first(cur@, seq![Seq::<char>::empty()]) =~~= seq![cur@]);
    }
    let ghost old_r = r@;
    let ghost old_cur = cur@;
    r.push(cur);
    proof {
        assert(vec_views(r@) =~~= vec_views(old_r) + seq![old_cur]);
    }
    r
}

/// The Unicode white-space characters, the set the scheduler's output
/// is trimmed of.
pub open spec fn is_space(c: char) -> bool {
    let u = c as u32;
    (0x9 <= u && u <= 0xd) || u == 0x20 || u == 0x85 || u == 0xa0 || u == 0x1680 || (0x2000 <= u
        && u <= 0x200a) || u == 0x2028 || u == 0x2029 || u == 0x202f || u == 0x205f || u == 0x3000
}

pub fn is_space_char(c: char) -> (r: bool)
    ensures
        r == is_space(c),
{
    let u = c as u32;
    (0x9 <= u && u <= 0xd) || u == 0x20 || u == 0x85 || u == 0xa0 || u == 0x1680 || (0x2000 <= u
        && u <= 0x200a) || u == 0x2028 || u == 0x2029 || u == 0x202f || u == 0x205f || u == 0x3000
}

pub open spec fn trim_start(s: Seq<char>) -> Seq<char>
    decreases s.len(),
{
    if s.len() > 0 && is_space(s[0]) {
        trim_start(s.drop_first())
    } else {
        s
    }
}

pub open spec fn trim_end(s: Seq<char>) -> Seq<char>
    decreases s.len(),
{
    if s.len() > 0 && is_space(s.last()) {
        trim_end(s.drop_last())
    } else {
        s
    }
}

/// `s` with its leading and trailing white space removed.
pub open spec fn trim_spec(s: Seq<char>) -> Seq<char> {
    trim_end(trim_start(s))
}

/// The characters of `v` from `from` (inclusive) to `to` (exclusive).
pub fn sub_chars(v: &Vec<char>, from: usize, to: usize) -> (r: Vec<char>)
    requires
        from <= to <= v@.len(),
    ensures
        r@ == v@.subrange(from as int, to as int),
{
    let mut r: Vec<char> = Vec::new();
    let mut k: usize = from;
    while k < to
        invariant
            from <= k <= to <= v@.len(),
            r@ == v@.subrange(from as int, k as int),
        decreases to - k,
    {
        r.push(v[k]);
        k = k + 1;
        proof {
            assert(r@ =~= v@.subrange(from as int, k as int));
        }
    }
    r
}

/// `v` with its leading and trailing white space removed.
pub fn trim_chars(v: &Vec<char>) -> (r: Vec<char>)
    ensures
        r@ == trim_spec(v@),
{
    let n = v.len();
    let mut a: usize = 0;
    proof {
        assert(v@.skip(0) =~= v@);
    }
    while a < n && is_space_char(v[a])
        invariant
            n == v@.len(),
            a <= n,
            trim_start(v@) == trim_start(v@.skip(a as int)),
        decreases n - a,
    {
        proof {
            assert(v@.skip(a as int).drop_first() =~= v@.skip(a as int + 1));
        }
        a = a + 1;
    }
    proof {
        if a == n {
            assert(v@.skip(a as int) =~= Seq::<char>::empty());
        }
        assert(trim_start(v@) == v@.skip(a as int));
    }
    let ghost rem = v@.skip(a as int);
    let mut b: usize = n;
    proof {
        assert(rem.take(n - a as int) =~= rem);
    }
    while b > a && is_space_char(v[b - 1])
        invariant
            n == v@.len(),
            a <= b <= n,
            rem == v@.skip(a as int),
            trim_end(rem) == trim_end(rem.take(b - a as int)),
        decreases b,
    {
        proof {
            let t = rem.take(b - a as int);
            assert(t.last() == v@[b - 1]);
            assert(t.drop_last() =~= rem.take(b - 1 - a as int));
        }
        b = b - 1;
    }
    proof {
        let t = rem.take(b - a as int);
        if b > a {
            assert(t.last() == v@[b - 1]);
        }
        assert(trim_end(t) == t);
        assert(t =~= v@.subrange(a as int, b as int));
    }
    sub_chars(v, a, b)
}

} // verus!
