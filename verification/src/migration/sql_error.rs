//! The message of an SQL error at a position of a migration: the line that
//! holds the position, prefixed by its number, and a caret under the
//! position.
use vstd::prelude::*;
use crate::text::{decimal, decimal_u64, push_str, string_of};

verus! {

/// The byte of the newline character.
pub open spec fn newline() -> u8 {
    10u8
}

/// The byte of the carriage return character.
pub open spec fn carriage_return() -> u8 {
    13u8
}

/// The position just after the last newline before `p`, or 0.
pub open spec fn line_begin(s: Seq<u8>, p: int) -> int
    decreases p,
{
    if p <= 0 {
        0
    } else if s[p - 1] == newline() {
        p
    } else {
        line_begin(s, p - 1)
    }
}

/// The position of the first newline at or after `p`, if any.
pub open spec fn newline_from(s: Seq<u8>, p: int) -> Option<int>
    decreases s.len() - p,
{
    if p >= s.len() {
        None
    } else if s[p] == newline() {
        Some(p)
    } else {
        newline_from(s, p + 1)
    }
}

/// Where the excerpt ends: at the first newline from `p`, or `p` bytes
/// past the end when there is none.
pub open spec fn line_end(s: Seq<u8>, p: int) -> int {
    match newline_from(s, p) {
        Some(e) => e,
        None => s.len() + p,
    }
}

/// The number of the line that `remaining` bytes from the start of `s`
/// fall into, counting lines as `str::lines` splits them: at each newline,
/// a carriage return before it not counted, the newline counted as one
/// byte.
pub open spec fn line_number(s: Seq<u8>, remaining: int) -> nat
    decreases s.len(),
{
    if s.len() == 0 {
        1
    } else {
        proof {
            lemma_newline_from(s, 0);
        }
        match newline_from(s, 0) {
            Some(k) => {
                let len = if k > 0 && s[k - 1] == carriage_return() {
                    k - 1
                } else {
                    k
                };
                if remaining <= len {
                    1
                } else {
                    1 + line_number(s.skip(k + 1), remaining - len - 1)
                }
            },
            None => if remaining <= s.len() {
                1
            } else {
                2
            },
        }
    }
}

/// The ASCII text `t` as bytes.
pub open spec fn ascii_bytes(t: Seq<char>) -> Seq<u8> {
    t.map_values(|c: char| c as u8)
}

/// `LINE <n>: `.
pub open spec fn line_prefix(n: nat) -> Seq<char> {
    "LINE "@ + decimal(n) + ": "@
}

/// The message for an error at byte `p` of `s`: the line prefix, the line
/// that holds `p`, as many spaces as the prefix is long plus the column of
/// `p` less one, and a caret.
pub open spec fn caret_message(s: Seq<u8>, p: int) -> Seq<u8> {
    let prefix = line_prefix(line_number(s, p));
    let b = line_begin(s, p);
    ascii_bytes(prefix) + s.subrange(b, line_end(s, p)) + Seq::new(
        (prefix.len() + (p - b) - 1) as nat,
        |i: int| 32u8,
    ) + seq![94u8]
}

/// Whether the message for position `p` of `s` can be made: `p` lies in
/// `s` and, unless it is 0, a newline follows it.
pub open spec fn caret_defined(s: Seq<u8>, p: int) -> bool {
    &&& 0 <= p <= s.len()
    &&& (p == 0 || newline_from(s, p) is Some)
}

proof fn lemma_line_begin(s: Seq<u8>, p: int)
    requires
        0 <= p <= s.len(),
    ensures
        0 <= line_begin(s, p) <= p,
        forall|i: int| line_begin(s, p) <= i < p ==> s[i] != newline(),
        line_begin(s, p) > 0 ==> s[line_begin(s, p) - 1] == newline(),
    decreases p,
{
    if p > 0 && s[p - 1] != newline() {
        lemma_line_begin(s, p - 1);
    }
}

/// Where the first newline from `p` lies, if there is one.
pub proof fn lemma_newline_from(s: Seq<u8>, p: int)
    requires
        0 <= p <= s.len(),
    ensures
        match newline_from(s, p) {
            Some(e) => p <= e < s.len() && s[e] == newline() && forall|i: int| p <= i < e ==> s[i] != newline(),
            None => forall|i: int| p <= i < s.len() ==> s[i] != newline(),
        },
    decreases s.len() - p,
{
    if p < s.len() && s[p] != newline() {
        lemma_newline_from(s, p + 1);
    }
}

proof fn lemma_newline_shift(s: Seq<u8>, k: int, p: int)
    requires
        0 <= k <= p <= s.len(),
    ensures
        newline_from(s.skip(k), p - k) == match newline_from(s, p) {
            Some(e) => Some(e - k),
            None => None::<int>,
        },
    decreases s.len() - p,
{
    if p < s.len() {
        assert(s.skip(k)[p - k] == s[p]);
        if s[p] != newline() {
            lemma_newline_shift(s, k, p + 1);
        }
    }
}

fn ascii_push(v: &mut Vec<u8>, t: &str)
    requires
        forall|i: int| 0 <= i < t@.len() ==> (t@[i] as int) < 128,
    ensures
        final(v)@ == old(v)@ + ascii_bytes(t@),
{
    let chars = crate::text::chars_of(t);
    let ghost start = v@;
    let mut i: usize = 0;
    while i < chars.len()
        invariant
            i <= chars@.len(),
            chars@ == t@,
            forall|j: int| 0 <= j < t@.len() ==> (t@[j] as int) < 128,
            v@ == start + ascii_bytes(t@.take(i as int)),
        decreases chars.len() - i,
    {
        let c = chars[i];
        let b: u8 = c as u8;
        v.push(b);
        assert(ascii_bytes(t@.take(i + 1)) =~= ascii_bytes(t@.take(i as int)).push(c as u8));
        i = i + 1;
    }
    assert(t@.take(chars.len() as int) =~= t@);
}

proof fn lemma_decimal_ascii(n: nat)
    ensures
        forall|i: int| 0 <= i < decimal(n).len() ==> (#[trigger] decimal(n)[i] as int) < 128,
    decreases n,
{
    if n >= 10 {
        lemma_decimal_ascii(n / 10);
        assert forall|i: int| 0 <= i < decimal(n).len() implies (#[trigger] decimal(n)[i] as int) < 128 by {
            if i < decimal(n / 10).len() {
                assert(decimal(n)[i] == decimal(n / 10)[i]);
            }
        }
    }
}

/// The number of the line that `remaining` bytes from position `start`
/// fall into, within `s` from `start` on.
fn line_number_from(s: &[u8], start: usize, remaining: usize) -> (n: u64)
    requires
        start <= s@.len(),
        s@.len() < usize::MAX,
    ensures
        n as nat == line_number(s@.skip(start as int), remaining as int),
    decreases s@.len() - start,
{
    let ghost t = s@.skip(start as int);
    if start == s.len() {
        assert(t.len() == 0);
        return 1;
    }
    let mut k: usize = start;
    while k < s.len() && s[k] != 10u8
        invariant
            start <= k <= s@.len(),
            forall|i: int| start <= i < k ==> s@[i] != newline(),
        decreases s.len() - k,
    {
        k = k + 1;
    }
    proof {
        lemma_newline_shift(s@, start as int, start as int);
        lemma_newline_from(s@, start as int);
        lemma_newline_from(t, 0);
        if k < s.len() {
            assert(s@[k as int] == newline());
            assert(newline_from(s@, start as int) == Some(k as int)) by {
                let e = newline_from(s@, start as int)->Some_0;
                if e < k {
                    assert(s@[e] != newline());
                } else if e > k {
                    assert(s@[k as int] != newline());
                }
            }
        } else {
            assert(newline_from(s@, start as int) == None::<int>) by {
                if newline_from(s@, start as int) is Some {
                    let e = newline_from(s@, start as int)->Some_0;
                    assert(s@[e] != newline());
                }
            }
        }
    }
    if k == s.len() {
        let len = s.len() - start;
        if remaining <= len {
            1
        } else {
            2
        }
    } else {
        let len = if k > start && s[k - 1] == 13u8 {
            k - 1 - start
        } else {
            k - start
        };
        proof {
            if k > start {
                assert(t[k - start - 1] == s@[k - 1]);
            }
        }
        if remaining <= len {
            1
        } else {
            proof {
                assert(t.skip(k - start + 1) =~= s@.skip(k + 1));
            }
            let rest = line_number_from(s, k + 1, remaining - len - 1);
            proof {
                lemma_line_number_bound(s@.skip(k + 1), (remaining - len - 1) as int);
            }
            1 + rest
        }
    }
}

proof fn lemma_line_number_bound(s: Seq<u8>, remaining: int)
    ensures
        line_number(s, remaining) <= s.len() + 1,
    decreases s.len(),
{
    if s.len() > 0 {
        lemma_newline_from(s, 0);
        match newline_from(s, 0) {
            Some(k) => {
                lemma_line_number_bound(s.skip(k + 1), remaining - (if k > 0 && s[k - 1] == carriage_return() {
                    k - 1
                } else {
                    k
                }) - 1);
            },
            None => {},
        }
    }
}

/// The message for an error at byte `position` of the SQL text with the
/// bytes `sql`: `LINE <n>: `, the line, and a caret under the position.
pub fn caret_excerpt(sql: &[u8], position: usize) -> (r: Vec<u8>)
    requires
        caret_defined(sql@, position as int),
        sql@.len() < usize::MAX,
    ensures
        r@ == caret_message(sql@, position as int),
{
    let s = sql;
    let ghost g = sql@;
    proof {
        lemma_line_begin(g, position as int);
        lemma_newline_from(g, position as int);
    }
    let mut b: usize = position;
    while b > 0 && s[b - 1] != 10u8
        invariant
            b <= position <= s@.len(),
            line_begin(g, b as int) == line_begin(g, position as int),
            g == s@,
        decreases b,
    {
        b = b - 1;
    }
    let mut e: usize = position;
    while e < s.len() && s[e] != 10u8
        invariant
            position <= e <= s@.len(),
            newline_from(g, e as int) == newline_from(g, position as int),
            g == s@,
        decreases s.len() - e,
    {
        e = e + 1;
    }
    assert(b == line_begin(g, position as int));
    if e == s.len() {
        assert(newline_from(g, position as int) == None::<int>);
        assert(position == 0);
    }
    assert(e == line_end(g, position as int));
    assert(g.skip(0) =~= g);
    let n = line_number_from(s, 0, position);
    let number = decimal_u64(n);
    let mut prefix = string_of("LINE ");
    push_str(&mut prefix, number.as_str());
    push_str(&mut prefix, ": ");
    proof {
        reveal_strlit("LINE ");
        reveal_strlit(": ");
        lemma_decimal_ascii(n as nat);
        lemma_decimal_nonempty(n as nat);
        assert(prefix@ == line_prefix(n as nat));
        assert(prefix@.len() >= 8);
        assert forall|i: int| 0 <= i < prefix@.len() implies (prefix@[i] as int) < 128 by {
            if i >= 5 && i < 5 + number@.len() {
                assert(prefix@[i] == decimal(n as nat)[i - 5]);
            }
        }
    }
    let mut out: Vec<u8> = Vec::new();
    ascii_push(&mut out, prefix.as_str());
    let plen = out.len();
    assert(plen == prefix@.len());
    let mut i: usize = b;
    while i < e
        invariant
            b <= i <= e <= s@.len(),
            out@ == ascii_bytes(prefix@) + s@.subrange(b as int, i as int),
        decreases e - i,
    {
        out.push(s[i]);
        assert(s@.subrange(b as int, i + 1) =~= s@.subrange(b as int, i as int).push(s@[i as int]));
        i = i + 1;
    }
    let ghost head = out@;
    let pad = plen - 1;
    let column = position - b;
    let mut k: usize = 0;
    while k < pad
        invariant
            k <= pad,
            out@ == head + Seq::new(k as nat, |j: int| 32u8),
        decreases pad - k,
    {
        out.push(32u8);
        assert(head + Seq::new((k + 1) as nat, |j: int| 32u8) =~= (head + Seq::new(k as nat, |j: int| 32u8)).push(32u8));
        k = k + 1;
    }
    let mut c: usize = 0;
    while c < column
        invariant
            c <= column,
            out@ == head + Seq::new((pad + c) as nat, |j: int| 32u8),
        decreases column - c,
    {
        out.push(32u8);
        assert(head + Seq::new((pad + c + 1) as nat, |j: int| 32u8) =~= (head + Seq::new((pad + c) as nat, |j: int| 32u8)).push(32u8));
        c = c + 1;
    }
    out.push(94u8);
    proof {
        assert(pad + column == line_prefix(n as nat).len() + (position - b) - 1);
        assert(out@ =~= caret_message(g, position as int));
    }
    out
}

proof fn lemma_decimal_nonempty(n: nat)
    ensures
        decimal(n).len() >= 1,
    decreases n,
{
    if n >= 10 {
        lemma_decimal_nonempty(n / 10);
    }
}

} // verus!
