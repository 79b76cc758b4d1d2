//! Whitespace tokenisation and literal substitution on text.

use vstd::prelude::*;

verus! {

/// Unicode's `White_Space` characters, as `char::is_whitespace` defines them.
pub open spec fn is_space(c: char) -> bool {
    let u = c as u32;
    (0x09 <= u <= 0x0D) || u == 0x20 || u == 0x85 || u == 0xA0 || u == 0x1680 || (0x2000 <= u
        <= 0x200A) || u == 0x2028 || u == 0x2029 || u == 0x202F || u == 0x205F || u == 0x3000
}

pub fn is_whitespace(c: char) -> (r: bool)
    ensures
        r == is_space(c),
{
    let u = c as u32;
    (0x09 <= u && u <= 0x0D) || u == 0x20 || u == 0x85 || u == 0xA0 || u == 0x1680 || (0x2000
        <= u && u <= 0x200A) || u == 0x2028 || u == 0x2029 || u == 0x202F || u == 0x205F || u
        == 0x3000
}

/// The words of `s` from position `i` on, where the word in progress began at
/// `start`: each word is a maximal run of characters that are not white space.
pub open spec fn words_from(s: Seq<char>, start: int, i: int) -> Seq<Seq<char>>
    decreases s.len() - i,
{
    if i >= s.len() || i < 0 || start > i {
        if 0 <= start < s.len() && start < i {
            seq![s.subrange(start, s.len() as int)]
        } else {
            seq![]
        }
    } else if is_space(s[i]) {
        let rest = words_from(s, i + 1, i + 1);
        if start < i {
            seq![s.subrange(start, i)] + rest
        } else {
            rest
        }
    } else {
        words_from(s, start, i + 1)
    }
}

/// The words of `s`, in order, as `str::split_whitespace` yields them.
pub open spec fn words(s: Seq<char>) -> Seq<Seq<char>> {
    words_from(s, 0, 0)
}

/// The views of a sequence of strings.
pub open spec fn texts(v: Seq<String>) -> Seq<Seq<char>> {
    v.map_values(|t: String| t@)
}

/// The words of `s`, in order.
pub fn split_words(s: &str) -> (r: Vec<String>)
    ensures
        texts(r@) == words(s@),
{
    let n = s.unicode_len();
    let mut out: Vec<String> = Vec::new();
    let mut start: usize = 0;
    let mut i: usize = 0;
    while i < n
        invariant
            n == s@.len(),
            start <= i <= n,
            texts(out@) + words_from(s@, start as int, i as int) == words(s@),
        decreases n - i,
    {
        let c = s.get_char(i);
        if is_whitespace(c) {
            if start < i {
                let word = String::from_str(s.substring_char(start, i));
                let ghost before = out@;
                out.push(word);
                assert(texts(out@) =~= texts(before) + seq![s@.subrange(start as int, i as int)]);
                assert(texts(out@) + words_from(s@, i + 1, i + 1) =~= texts(before) + (seq![
                    s@.subrange(start as int, i as int),
                ] + words_from(s@, i + 1, i + 1)));
            }
            i = i + 1;
            start = i;
        } else {
            i = i + 1;
        }
    }
    if start < n {
        let word = String::from_str(s.substring_char(start, n));
        let ghost before = out@;
        out.push(word);
        assert(texts(out@) =~= texts(before) + seq![s@.subrange(start as int, n as int)]);
    } else {
        assert(texts(out@) =~= texts(out@) + words_from(s@, start as int, i as int));
    }
    out
}

/// Whether `pat` occurs in `s` at position `i`.
pub open spec fn occurs_at(s: Seq<char>, pat: Seq<char>, i: int) -> bool {
    0 <= i && i + pat.len() <= s.len() && s.subrange(i, i + pat.len()) == pat
}

/// `s` from position `i` on, with each occurrence of `pat`, taken from left to
/// right without overlap, replaced by `rep`.
pub open spec fn replaced_from(s: Seq<char>, pat: Seq<char>, rep: Seq<char>, i: int) -> Seq<char>
    decreases s.len() - i,
{
    if i < 0 || i >= s.len() || pat.len() == 0 {
        s.subrange(if 0 <= i <= s.len() { i } else { s.len() as int }, s.len() as int)
    } else if occurs_at(s, pat, i) {
        rep + replaced_from(s, pat, rep, i + pat.len())
    } else {
        seq![s[i]] + replaced_from(s, pat, rep, i + 1)
    }
}

/// `s` with each occurrence of `pat` replaced by `rep`, as `str::replace` does.
pub open spec fn replaced(s: Seq<char>, pat: Seq<char>, rep: Seq<char>) -> Seq<char> {
    replaced_from(s, pat, rep, 0)
}

/// Whether `pat` occurs in `s` at position `i`.
fn matches_at(s: &str, n: usize, pat: &str, m: usize, i: usize) -> (r: bool)
    requires
        n == s@.len(),
        m == pat@.len(),
        i <= n,
    ensures
        r == occurs_at(s@, pat@, i as int),
{
    if m > n - i {
        return false;
    }
    let mut k: usize = 0;
    while k < m
        invariant
            n == s@.len(),
            m == pat@.len(),
            i + m <= n,
            k <= m,
            forall|j: int| 0 <= j < k ==> s@[i + j] == pat@[j],
        decreases m - k,
    {
        if s.get_char(i + k) != pat.get_char(k) {
            assert(s@.subrange(i as int, i + m)[k as int] != pat@[k as int]);
            return false;
        }
        k = k + 1;
    }
    assert(s@.subrange(i as int, i + m) =~= pat@);
    true
}

/// `s` with each occurrence of the non-empty `pat` replaced by `rep`.
pub fn replace_all(s: &str, pat: &str, rep: &str) -> (r: String)
    requires
        pat@.len() > 0,
    ensures
        r@ == replaced(s@, pat@, rep@),
{
    let n = s.unicode_len();
    let m = pat.unicode_len();
    let mut out = String::new();
    let mut start: usize = 0;
    let mut i: usize = 0;
    while i < n
        invariant
            n == s@.len(),
            m == pat@.len(),
            m > 0,
            start <= i <= n,
            out@ + s@.subrange(start as int, i as int) + replaced_from(s@, pat@, rep@, i as int)
                == replaced(s@, pat@, rep@),
        decreases n - i,
    {
        if matches_at(s, n, pat, m, i) {
            let ghost before = out@;
            out.append(s.substring_char(start, i));
            out.append(rep);
            assert(out@ + s@.subrange((i + m) as int, (i + m) as int) + replaced_from(
                s@,
                pat@,
                rep@,
                (i + m) as int,
            ) =~= before + s@.subrange(start as int, i as int) + replaced_from(s@, pat@, rep@, i as int));
            i = i + m;
            start = i;
        } else {
            assert(s@.subrange(start as int, i as int) + seq![s@[i as int]] =~= s@.subrange(
                start as int,
                i + 1,
            ));
            assert(out@ + s@.subrange(start as int, i + 1) + replaced_from(s@, pat@, rep@, i + 1)
                =~= out@ + s@.subrange(start as int, i as int) + replaced_from(s@, pat@, rep@, i as int));
            i = i + 1;
        }
    }
    out.append(s.substring_char(start, n));
    assert(replaced_from(s@, pat@, rep@, n as int) =~= Seq::<char>::empty());
    assert(out@ =~= replaced(s@, pat@, rep@));
    out
}

} // verus!
