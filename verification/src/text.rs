//! Character-level text helpers shared by the parsers: splitting, trimming,
//! and ASCII case folding, each with an exact specification.

use crate::shims::push_char;
use vstd::prelude::*;

verus! {

/// Whitespace as the engines understand it.
pub open spec fn is_space(c: char) -> bool {
    c == ' ' || c == '\t' || c == '\n' || c == '\r'
}

#[verifier::when_used_as_spec(is_space)]
pub fn space(c: char) -> (r: bool)
    ensures
        r == is_space(c),
{
    c == ' ' || c == '\t' || c == '\n' || c == '\r'
}

/// The ASCII lower-case form of one character; all others are untouched.
pub open spec fn lower_char(c: char) -> char {
    if 65 <= c as u32 && c as u32 <= 90 {
        ((c as u8) + 32) as char
    } else {
        c
    }
}

pub fn lower_char_exec(c: char) -> (r: char)
    ensures
        r == lower_char(c),
{
    let u = c as u32;
    if 65 <= u && u <= 90 {
        ((c as u8) + 32) as char
    } else {
        c
    }
}

/// The ASCII lower-case form of a text.
pub open spec fn lower_text(s: Seq<char>) -> Seq<char> {
    s.map_values(|c: char| lower_char(c))
}

pub fn lower(s: &str) -> (r: String)
    ensures
        r@ == lower_text(s@),
{
    let n = s.unicode_len();
    let mut out = String::new();
    let mut i: usize = 0;
    while i < n
        invariant
            i <= n,
            n == s@.len(),
            out@ == lower_text(s@.take(i as int)),
        decreases n - i,
    {
        let c = lower_char_exec(s.get_char(i));
        push_char(&mut out, c);
        proof {
            assert(s@.take(i + 1) =~= s@.take(i as int).push(s@[i as int]));
            assert(lower_text(s@.take(i + 1)) =~= lower_text(s@.take(i as int)).push(
                lower_char(s@[i as int])));
        }
        i = i + 1;
    }
    proof {
        assert(s@.take(n as int) =~= s@);
    }
    out
}

/// Splitting state: the finished pieces and the piece being gathered.
pub struct SplitAcc {
    pub done: Seq<Seq<char>>,
    pub cur: Seq<char>,
}

/// One character of a separator split.
pub open spec fn split_step(st: SplitAcc, c: char, sep: char) -> SplitAcc {
    if c == sep {
        SplitAcc { done: st.done.push(st.cur), cur: Seq::empty() }
    } else {
        SplitAcc { done: st.done, cur: st.cur.push(c) }
    }
}

pub open spec fn split_run(s: Seq<char>, sep: char) -> SplitAcc
    decreases s.len(),
{
    if s.len() == 0 {
        SplitAcc { done: Seq::empty(), cur: Seq::empty() }
    } else {
        split_step(split_run(s.drop_last(), sep), s.last(), sep)
    }
}

/// The pieces of `s` between occurrences of `sep`, empty pieces kept:
/// one piece more than there are separators.
pub open spec fn split_on(s: Seq<char>, sep: char) -> Seq<Seq<char>> {
    split_run(s, sep).done.push(split_run(s, sep).cur)
}

pub fn split_char(s: &str, sep: char) -> (r: Vec<String>)
    ensures
        r.deep_view() == split_on(s@, sep),
{
    let n = s.unicode_len();
    let mut done: Vec<String> = Vec::new();
    let mut cur = String::new();
    let mut i: usize = 0;
    while i < n
        invariant
            i <= n,
            n == s@.len(),
            done.deep_view() == split_run(s@.take(i as int), sep).done,
            cur@ == split_run(s@.take(i as int), sep).cur,
        decreases n - i,
    {
        let c = s.get_char(i);
        proof {
            assert(s@.take(i + 1).drop_last() =~= s@.take(i as int));
            assert(s@.take(i + 1).last() == s@[i as int]);
        }
        if c == sep {
            let ghost prev = done.deep_view();
            done.push(cur);
            cur = String::new();
            proof {
                assert(done.deep_view() =~= prev.push(split_run(s@.take(i as int), sep).cur));
            }
        } else {
            push_char(&mut cur, c);
        }
        i = i + 1;
    }
    proof {
        assert(s@.take(n as int) =~= s@);
    }
    let ghost prev = done.deep_view();
    done.push(cur);
    proof {
        assert(done.deep_view() =~= prev.push(split_run(s@, sep).cur));
    }
    done
}

/// One character of a whitespace split: whitespace closes the gathered word,
/// if any; anything else extends it.
pub open spec fn ws_step(st: SplitAcc, c: char) -> SplitAcc {
    if is_space(c) {
        if st.cur.len() > 0 {
            SplitAcc { done: st.done.push(st.cur), cur: Seq::empty() }
        } else {
            st
        }
    } else {
        SplitAcc { done: st.done, cur: st.cur.push(c) }
    }
}

pub open spec fn ws_run(s: Seq<char>) -> SplitAcc
    decreases s.len(),
{
    if s.len() == 0 {
        SplitAcc { done: Seq::empty(), cur: Seq::empty() }
    } else {
        ws_step(ws_run(s.drop_last()), s.last())
    }
}

/// The maximal whitespace-free words of `s`, in order.
pub open spec fn split_ws(s: Seq<char>) -> Seq<Seq<char>> {
    if ws_run(s).cur.len() > 0 {
        ws_run(s).done.push(ws_run(s).cur)
    } else {
        ws_run(s).done
    }
}

pub fn split_whitespace_words(s: &str) -> (r: Vec<String>)
    ensures
        r.deep_view() == split_ws(s@),
{
    let n = s.unicode_len();
    let mut done: Vec<String> = Vec::new();
    let mut cur = String::new();
    let mut i: usize = 0;
    while i < n
        invariant
            i <= n,
            n == s@.len(),
            done.deep_view() == ws_run(s@.take(i as int)).done,
            cur@ == ws_run(s@.take(i as int)).cur,
        decreases n - i,
    {
        let c = s.get_char(i);
        proof {
            assert(s@.take(i + 1).drop_last() =~= s@.take(i as int));
            assert(s@.take(i + 1).last() == s@[i as int]);
        }
        if space(c) {
            if cur.unicode_len() > 0 {
                let ghost prev = done.deep_view();
                done.push(cur);
                cur = String::new();
                proof {
                    assert(done.deep_view() =~= prev.push(ws_run(s@.take(i as int)).cur));
                }
            }
        } else {
            push_char(&mut cur, c);
        }
        i = i + 1;
    }
    proof {
        assert(s@.take(n as int) =~= s@);
    }
    if cur.unicode_len() > 0 {
        let ghost prev = done.deep_view();
        done.push(cur);
        proof {
            assert(done.deep_view() =~= prev.push(ws_run(s@).cur));
        }
    }
    done
}

/// `s` with leading whitespace dropped.
pub open spec fn trim_front(s: Seq<char>) -> Seq<char>
    decreases s.len(),
{
    if s.len() > 0 && is_space(s[0]) {
        trim_front(s.drop_first())
    } else {
        s
    }
}

/// `s` with trailing whitespace dropped.
pub open spec fn trim_back(s: Seq<char>) -> Seq<char>
    decreases s.len(),
{
    if s.len() > 0 && is_space(s.last()) {
        trim_back(s.drop_last())
    } else {
        s
    }
}

/// `s` with whitespace dropped at both ends.
pub open spec fn trimmed(s: Seq<char>) -> Seq<char> {
    trim_back(trim_front(s))
}

pub fn trim_text(s: &str) -> (r: String)
    ensures
        r@ == trimmed(s@),
{
    let n = s.unicode_len();
    proof {
        assert(s@.skip(0) =~= s@);
    }
    let mut a: usize = 0;
    while a < n && space(s.get_char(a))
        invariant
            a <= n,
            n == s@.len(),
            trim_front(s@) == trim_front(s@.skip(a as int)),
        decreases n - a,
    {
        proof {
            assert(s@.skip(a as int)[0] == s@[a as int]);
            assert(s@.skip(a as int).drop_first() =~= s@.skip(a + 1));
        }
        a = a + 1;
    }
    proof {
        if a == n {
            assert(s@.skip(a as int) =~= Seq::<char>::empty());
        }
        assert(trim_front(s@) == s@.skip(a as int));
    }
    let mut b: usize = n;
    while b > a && space(s.get_char(b - 1))
        invariant
            a <= b <= n,
            n == s@.len(),
            trim_back(s@.skip(a as int)) == trim_back(s@.subrange(a as int, b as int)),
        decreases b,
    {
        proof {
            assert(s@.subrange(a as int, b as int).last() == s@[b - 1]);
            assert(s@.subrange(a as int, b as int).drop_last() =~= s@.subrange(a as int, b - 1));
        }
        b = b - 1;
    }
    proof {
        if b == a {
            assert(s@.subrange(a as int, b as int) =~= Seq::<char>::empty());
        } else {
            assert(s@.subrange(a as int, b as int).last() == s@[b - 1]);
        }
        assert(trim_back(s@.subrange(a as int, b as int)) == s@.subrange(a as int, b as int));
    }
    let piece = s.substring_char(a, b);
    String::from_str(piece)
}

} // verus!
