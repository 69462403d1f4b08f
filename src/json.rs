//! JSON string literals: escaping, reading back, and the round trip between them.
use vstd::prelude::*;
use vstd::string::StringExecFns;
use crate::text::{decimal, digit_char, hex_char, push_char, signed_decimal};

verus! {

/// The escaped form of one character inside a JSON string literal: quote and
/// backslash get a backslash, control characters the form `\u00XX`.
pub open spec fn escape_char(c: char) -> Seq<char> {
    if c == '"' {
        seq!['\\', '"']
    } else if c == '\\' {
        seq!['\\', '\\']
    } else if (c as u32) < 32 {
        seq!['\\', 'u', '0', '0', hex_char((c as u32 / 16) as nat), hex_char((c as u32 % 16) as nat)]
    } else {
        seq![c]
    }
}

/// The escaped form of a whole text.
pub open spec fn escape(s: Seq<char>) -> Seq<char>
    decreases s.len(),
{
    if s.len() == 0 {
        seq![]
    } else {
        escape(s.drop_last()) + escape_char(s.last())
    }
}

/// The JSON string literal of `s`.
pub open spec fn quoted(s: Seq<char>) -> Seq<char> {
    seq!['"'] + escape(s) + seq!['"']
}

/// The value of a lowercase hexadecimal digit.
pub open spec fn hex_value(c: char) -> Option<nat> {
    if '0' <= c <= '9' {
        Some((c as u32 - '0' as u32) as nat)
    } else if 'a' <= c <= 'f' {
        Some((c as u32 - 'a' as u32 + 10) as nat)
    } else {
        None
    }
}

/// The character of the escape sequence that starts `s`, and its length.
pub open spec fn escape_at(s: Seq<char>) -> Option<(char, nat)> {
    if s.len() >= 2 && s[0] == '\\' && (s[1] == '"' || s[1] == '\\') {
        Some((s[1], 2))
    } else if s.len() >= 6 && s[0] == '\\' && s[1] == 'u' && s[2] == '0' && s[3] == '0' && (s[4]
        == '0' || s[4] == '1') && hex_value(s[5]) is Some {
        Some((((hex_value(s[4])->0 * 16 + hex_value(s[5])->0) as u32) as char, 6))
    } else {
        None
    }
}

/// Reads the body of a string literal, after its opening quote: the text it
/// stands for and the number of characters read, closing quote included.
pub open spec fn unescape(s: Seq<char>) -> Option<(Seq<char>, nat)>
    decreases s.len(),
{
    if s.len() == 0 {
        None
    } else if s[0] == '"' {
        Some((seq![], 1))
    } else if s[0] == '\\' {
        match escape_at(s) {
            Some((c, k)) => match unescape(s.subrange(k as int, s.len() as int)) {
                Some((t, n)) => Some((seq![c] + t, n + k)),
                None => None,
            },
            None => None,
        }
    } else {
        match unescape(s.drop_first()) {
            Some((t, n)) => Some((seq![s[0]] + t, n + 1)),
            None => None,
        }
    }
}

/// The string literal that starts at `pos` of `s`: its text and the position after it.
pub open spec fn string_at(s: Seq<char>, pos: int) -> Option<(Seq<char>, int)> {
    if 0 <= pos < s.len() && s[pos] == '"' {
        match unescape(s.subrange(pos + 1, s.len() as int)) {
            Some((t, n)) => Some((t, pos + 1 + n)),
            None => None,
        }
    } else {
        None
    }
}

/// The position after `lit`, where `lit` stands at `pos` of `s`.
pub open spec fn expect(s: Seq<char>, pos: int, lit: Seq<char>) -> Option<int> {
    if 0 <= pos && pos + lit.len() <= s.len() && s.subrange(pos, pos + lit.len()) == lit {
        Some(pos + lit.len())
    } else {
        None
    }
}

pub proof fn lemma_escape_append(a: Seq<char>, b: Seq<char>)
    ensures
        escape(a + b) == escape(a) + escape(b),
    decreases b.len(),
{
    if b.len() == 0 {
        assert(a + b =~= a);
        assert(escape(a) + escape(b) =~= escape(a));
    } else {
        lemma_escape_append(a, b.drop_last());
        assert((a + b).drop_last() =~= a + b.drop_last());
        assert((a + b).last() == b.last());
        assert(escape(a + b) =~= escape(a) + escape(b));
    }
}

proof fn lemma_escape_char_read(c: char, rest: Seq<char>)
    ensures
        escape_char(c)[0] == '\\' ==> escape_at(escape_char(c) + rest) == Some((c, escape_char(c).len())),
        escape_char(c)[0] != '\\' ==> escape_char(c) == seq![c] && c != '"',
{
    let e = escape_char(c) + rest;
    if c == '"' || c == '\\' {
        assert(e[1] == c);
    } else if (c as u32) < 32 {
        let v = c as u32;
        assert(e[4] == hex_char((v / 16) as nat) && e[5] == hex_char((v % 16) as nat));
        assert(hex_value(e[4]) == Some((v / 16) as nat));
        assert(hex_value(e[5]) == Some((v % 16) as nat));
        vstd::utf8::char_u32_cast(c, v);
        assert(((((v / 16) * 16 + v % 16) as u32) as char) == c);
    }
}

/// Reading back the escaped form of a text, then a closing quote, gives the text.
pub proof fn lemma_unescape_escape(t: Seq<char>, rest: Seq<char>)
    ensures
        unescape(escape(t) + seq!['"'] + rest) == Some((t, (escape(t).len() + 1) as nat)),
    decreases t.len(),
{
    let s = escape(t) + seq!['"'] + rest;
    if t.len() == 0 {
        assert(s[0] == '"');
    } else {
        let c = t[0];
        let tail = t.drop_first();
        assert(t =~= seq![c] + tail);
        lemma_escape_append(seq![c], tail);
        assert(seq![c].drop_last() =~= Seq::<char>::empty());
        assert(seq![c].last() == c);
        assert(escape(Seq::<char>::empty()) =~= Seq::<char>::empty());
        assert(escape(seq![c]) =~= escape_char(c));
        let after = escape(tail) + seq!['"'] + rest;
        lemma_unescape_escape(tail, rest);
        assert(s =~= escape_char(c) + after);
        lemma_escape_char_read(c, after);
        let k = escape_char(c).len();
        assert(s.subrange(k as int, s.len() as int) =~= after);
        if escape_char(c)[0] == '\\' {
            assert(s[0] == '\\');
        } else {
            assert(s[0] == c);
            assert(s.drop_first() =~= after);
        }
        assert(seq![c] + tail =~= t);
    }
}

/// A string literal written at the end of `a` is read back from there.
pub proof fn lemma_string_at(a: Seq<char>, t: Seq<char>, rest: Seq<char>)
    ensures
        string_at(a + quoted(t) + rest, a.len() as int) == Some((t, a.len() + quoted(t).len() as int)),
{
    let s = a + quoted(t) + rest;
    lemma_unescape_escape(t, rest);
    assert(s[a.len() as int] == '"');
    assert(s.subrange(a.len() as int + 1, s.len() as int) =~= escape(t) + seq!['"'] + rest);
}

/// A literal written at the end of `a` is found there.
pub proof fn lemma_expect(a: Seq<char>, lit: Seq<char>, rest: Seq<char>)
    ensures
        expect(a + lit + rest, a.len() as int, lit) == Some(a.len() + lit.len() as int),
{
    assert((a + lit + rest).subrange(a.len() as int, a.len() + lit.len() as int) =~= lit);
}

/// Appends the JSON string literal of `t`.
pub fn push_quoted(s: &mut String, t: &str)
    ensures
        final(s)@ == old(s)@ + quoted(t@),
{
    let cs = crate::text::chars_of(t);
    push_char(s, '"');
    let ghost start = s@;
    let mut i: usize = 0;
    while i < cs.len()
        invariant
            cs@ == t@,
            i <= cs@.len(),
            s@ == start + escape(cs@.subrange(0, i as int)),
        decreases cs@.len() - i,
    {
        let c = cs[i];
        if c == '"' {
            s.append("\\\"");
            proof { reveal_strlit("\\\""); }
        } else if c == '\\' {
            s.append("\\\\");
            proof { reveal_strlit("\\\\"); }
        } else if (c as u32) < 32 {
            let v = c as u32;
            s.append("\\u00");
            proof { reveal_strlit("\\u00"); }
            push_char(s, digit_char((v / 16) as u8));
            push_char(s, digit_char((v % 16) as u8));
        } else {
            push_char(s, c);
        }
        proof {
            let p = cs@.subrange(0, i as int + 1);
            assert(p.drop_last() =~= cs@.subrange(0, i as int));
            assert(p.last() == c);
        }
        assert(s@ =~= start + escape(cs@.subrange(0, i as int + 1)));
        i = i + 1;
    }
    push_char(s, '"');
    assert(cs@.subrange(0, cs@.len() as int) =~= t@);
    assert(s@ =~= old(s)@ + quoted(t@));
}

/// A reading of the rest of a literal, after `pre` was read in `k` characters.
pub open spec fn after_prefix(o: Option<(Seq<char>, nat)>, pre: Seq<char>, k: nat) -> Option<(Seq<char>, nat)> {
    match o {
        Some((t, n)) => Some((pre + t, n + k)),
        None => None,
    }
}

fn hex_value_of(c: char) -> (r: Option<u32>)
    ensures
        r is Some <==> hex_value(c) is Some,
        r matches Some(v) ==> v == hex_value(c)->0 && v < 16,
{
    if '0' <= c && c <= '9' {
        Some(c as u32 - '0' as u32)
    } else if 'a' <= c && c <= 'f' {
        Some(c as u32 - 'a' as u32 + 10)
    } else {
        None
    }
}

/// Reads the string literal that starts at `pos` of `s`.
pub fn read_string_at(s: &Vec<char>, pos: usize) -> (r: Option<(String, usize)>)
    ensures
        r is Some <==> string_at(s@, pos as int) is Some,
        r matches Some((t, e)) ==> string_at(s@, pos as int) == Some((t@, e as int)),
{
    if pos >= s.len() || s[pos] != '"' {
        return None;
    }
    let ghost whole = s@.subrange(pos as int + 1, s@.len() as int);
    let mut out = String::new();
    let mut i: usize = pos + 1;
    assert(s@.subrange(i as int, s@.len() as int) =~= whole);
    assert(out@ + Seq::<char>::empty() =~= Seq::<char>::empty());
    while i <= s.len()
        invariant
            pos + 1 <= i <= s@.len(),
            s@[pos as int] == '"',
            whole == s@.subrange(pos as int + 1, s@.len() as int),
            unescape(whole) == after_prefix(
                unescape(s@.subrange(i as int, s@.len() as int)),
                out@,
                (i - pos - 1) as nat,
            ),
        decreases s@.len() + 1 - i,
    {
        let ghost sub = s@.subrange(i as int, s@.len() as int);
        if i == s.len() {
            return None;
        }
        let c = s[i];
        if c == '"' {
            assert(out@ + Seq::<char>::empty() =~= out@);
            return Some((out, i + 1));
        }
        let ghost old_out = out@;
        let ghost ch: char;
        let k: usize;
        if c == '\\' {
            if i + 1 < s.len() && (s[i + 1] == '"' || s[i + 1] == '\\') {
                push_char(&mut out, s[i + 1]);
                proof {
                    ch = s@[i + 1];
                }
                k = 2;
            } else if s.len() - i > 5 && s[i + 1] == 'u' && s[i + 2] == '0' && s[i + 3] == '0' && (
            s[i + 4] == '0' || s[i + 4] == '1') {
                match (hex_value_of(s[i + 4]), hex_value_of(s[i + 5])) {
                    (Some(hi), Some(lo)) => {
                        let v: u32 = hi * 16 + lo;
                        let d = (v as u8) as char;
                        assert(d == (v as char));
                        push_char(&mut out, d);
                        proof {
                            ch = d;
                        }
                        k = 6;
                    },
                    _ => {
                        assert(escape_at(sub) is None);
                        return None;
                    },
                }
            } else {
                assert(escape_at(sub) is None);
                return None;
            }
            assert(escape_at(sub) == Some((ch, k as nat)));
            assert(sub.subrange(k as int, sub.len() as int) =~= s@.subrange(i + k, s@.len() as int));
        } else {
            push_char(&mut out, c);
            proof {
                ch = c;
            }
            k = 1;
            assert(sub.drop_first() =~= s@.subrange(i + 1, s@.len() as int));
        }
        let ghost next = unescape(s@.subrange(i + k, s@.len() as int));
        assert(unescape(sub) == after_prefix(next, seq![ch], k as nat));
        proof {
            if next is Some {
                let (t, n) = next->0;
                assert(old_out + (seq![ch] + t) =~= out@ + t);
            }
        }
        i = i + k;
    }
    None
}

/// Finds the literal `lit` at `pos` of `s`.
pub fn expect_at(s: &Vec<char>, pos: usize, lit: &str) -> (r: Option<usize>)
    ensures
        r is Some <==> expect(s@, pos as int, lit@) is Some,
        r matches Some(e) ==> expect(s@, pos as int, lit@) == Some(e as int),
{
    let l = crate::text::chars_of(lit);
    if pos > s.len() || l.len() > s.len() - pos {
        return None;
    }
    let n = s.len();
    let mut j: usize = 0;
    while j < l.len()
        invariant
            n == s@.len(),
            l@ == lit@,
            pos + l@.len() <= s@.len(),
            j <= l@.len(),
            forall|q: int| 0 <= q < j ==> s@[pos + q] == l@[q],
        decreases l@.len() - j,
    {
        if s[pos + j] != l[j] {
            assert(s@.subrange(pos as int, pos + l@.len())[j as int] != lit@[j as int]);
            return None;
        }
        j = j + 1;
    }
    assert(s@.subrange(pos as int, pos + l@.len()) =~= lit@);
    Some(pos + l.len())
}

pub open spec fn is_digit(c: char) -> bool {
    '0' <= c <= '9'
}

pub open spec fn digit_value(c: char) -> nat {
    (c as u32 - '0' as u32) as nat
}

/// Reads the run of digits that starts at `pos`, after the digits worth `acc`:
/// the value of all of them and the position after the run.
pub open spec fn digits_from(s: Seq<char>, pos: int, acc: nat) -> (nat, int)
    decreases s.len() - pos,
{
    if 0 <= pos < s.len() && is_digit(s[pos]) {
        digits_from(s, pos + 1, acc * 10 + digit_value(s[pos]))
    } else {
        (acc, pos)
    }
}

/// The unsigned decimal number at `pos` of `s` and the position after it.
pub open spec fn nat_at(s: Seq<char>, pos: int) -> Option<(nat, int)> {
    if 0 <= pos < s.len() && is_digit(s[pos]) {
        Some(digits_from(s, pos, 0))
    } else {
        None
    }
}

/// The decimal number, with an optional minus sign, at `pos` of `s`.
pub open spec fn int_at(s: Seq<char>, pos: int) -> Option<(int, int)> {
    if 0 <= pos < s.len() && s[pos] == '-' {
        match nat_at(s, pos + 1) {
            Some((n, e)) => Some((-n, e)),
            None => None,
        }
    } else {
        match nat_at(s, pos) {
            Some((n, e)) => Some((n as int, e)),
            None => None,
        }
    }
}

/// The value of the digits `ds` read after digits worth `acc`.
pub open spec fn digits_value(acc: nat, ds: Seq<char>) -> nat
    decreases ds.len(),
{
    if ds.len() == 0 {
        acc
    } else {
        digits_value(acc * 10 + digit_value(ds[0]), ds.drop_first())
    }
}

proof fn lemma_digits_value_push(acc: nat, ds: Seq<char>, d: char)
    ensures
        digits_value(acc, ds.push(d)) == digits_value(acc, ds) * 10 + digit_value(d),
    decreases ds.len(),
{
    if ds.len() == 0 {
        assert(ds.push(d).drop_first() =~= Seq::<char>::empty());
        assert(ds.push(d)[0] == d);
        assert(digits_value(acc * 10 + digit_value(d), Seq::<char>::empty()) == acc * 10 + digit_value(d));
        assert(digits_value(acc, ds) == acc);
    } else {
        assert(ds.push(d).drop_first() =~= ds.drop_first().push(d));
        assert(ds.push(d)[0] == ds[0]);
        lemma_digits_value_push(acc * 10 + digit_value(ds[0]), ds.drop_first(), d);
    }
}

proof fn lemma_digit_char(d: nat)
    requires
        d < 10,
    ensures
        is_digit(hex_char(d)),
        digit_value(hex_char(d)) == d,
{
}

proof fn lemma_decimal_digits(n: nat)
    ensures
        decimal(n).len() >= 1,
        forall|i: int| 0 <= i < decimal(n).len() ==> is_digit(#[trigger] decimal(n)[i]),
        digits_value(0, decimal(n)) == n,
    decreases n,
{
    if n < 10 {
        lemma_digit_char(n);
        assert(seq![hex_char(n)].drop_first() =~= Seq::<char>::empty());
        assert(digits_value(digit_value(hex_char(n)), Seq::<char>::empty()) == n);
    } else {
        lemma_digit_char(n % 10);
        lemma_decimal_digits(n / 10);
        lemma_digits_value_push(0, decimal(n / 10), hex_char(n % 10));
        assert forall|i: int| 0 <= i < decimal(n).len() implies is_digit(#[trigger] decimal(n)[i]) by {
            if i < decimal(n / 10).len() {
                assert(decimal(n)[i] == decimal(n / 10)[i]);
            }
        }
    }
}

proof fn lemma_digits_from(a: Seq<char>, ds: Seq<char>, rest: Seq<char>, acc: nat)
    requires
        forall|i: int| 0 <= i < ds.len() ==> is_digit(#[trigger] ds[i]),
        rest.len() > 0 && !is_digit(rest[0]),
    ensures
        digits_from(a + ds + rest, a.len() as int, acc) == (digits_value(acc, ds), a.len() + ds.len() as int),
    decreases ds.len(),
{
    let s = a + ds + rest;
    if ds.len() == 0 {
        assert(s[a.len() as int] == rest[0]);
    } else {
        let a2 = a.push(ds[0]);
        let ds2 = ds.drop_first();
        assert(s =~= a2 + ds2 + rest);
        assert(s[a.len() as int] == ds[0]);
        assert forall|i: int| 0 <= i < ds2.len() implies is_digit(#[trigger] ds2[i]) by {
            assert(ds2[i] == ds[i + 1]);
        }
        lemma_digits_from(a2, ds2, rest, acc * 10 + digit_value(ds[0]));
    }
}

/// A number written at the end of `a` and followed by a non-digit is read back.
pub proof fn lemma_nat_at(a: Seq<char>, n: nat, rest: Seq<char>)
    requires
        rest.len() > 0 && !is_digit(rest[0]),
    ensures
        nat_at(a + decimal(n) + rest, a.len() as int) == Some((n, a.len() + decimal(n).len() as int)),
{
    lemma_decimal_digits(n);
    lemma_digits_from(a, decimal(n), rest, 0);
    assert((a + decimal(n) + rest)[a.len() as int] == decimal(n)[0]);
}

/// A signed number written at the end of `a` and followed by a non-digit is read back.
pub proof fn lemma_int_at(a: Seq<char>, v: int, rest: Seq<char>)
    requires
        rest.len() > 0 && !is_digit(rest[0]),
    ensures
        int_at(a + signed_decimal(v) + rest, a.len() as int) == Some((v, a.len() + signed_decimal(v).len() as int)),
{
    lemma_decimal_digits((if v < 0 { -v } else { v }) as nat);
    if v < 0 {
        let n = (-v) as nat;
        let a2 = a.push('-');
        assert(a + signed_decimal(v) + rest =~= a2 + decimal(n) + rest);
        lemma_nat_at(a2, n, rest);
    } else {
        lemma_nat_at(a, v as nat, rest);
        assert(decimal(v as nat)[0] != '-');
    }
}

/// Reads the unsigned decimal number at `pos` of `s`, where its value is at most `bound`.
pub fn read_nat_at(s: &Vec<char>, pos: usize, bound: u64) -> (r: Option<(u64, usize)>)
    ensures
        r is Some <==> (nat_at(s@, pos as int) matches Some((n, e)) && n <= bound),
        r matches Some((n, e)) ==> nat_at(s@, pos as int) == Some((n as nat, e as int)),
{
    if pos >= s.len() || !('0' <= s[pos] && s[pos] <= '9') {
        return None;
    }
    let mut acc: u64 = 0;
    let mut i: usize = pos;
    while i < s.len() && '0' <= s[i] && s[i] <= '9'
        invariant
            pos <= i <= s@.len(),
            acc <= bound,
            digits_from(s@, pos as int, 0) == digits_from(s@, i as int, acc as nat),
        decreases s@.len() - i,
    {
        let d = (s[i] as u32 - '0' as u32) as u64;
        if d > bound || acc > (bound - d) / 10 {
            proof {
                lemma_digits_from_grows(s@, i as int + 1, (acc as nat * 10 + d) as nat);
            }
            return None;
        }
        acc = acc * 10 + d;
        i = i + 1;
    }
    Some((acc, i))
}

proof fn lemma_digits_from_grows(s: Seq<char>, pos: int, acc: nat)
    ensures
        digits_from(s, pos, acc).0 >= acc,
    decreases s.len() - pos,
{
    if 0 <= pos < s.len() && is_digit(s[pos]) {
        lemma_digits_from_grows(s, pos + 1, acc * 10 + digit_value(s[pos]));
    }
}

/// Reads the signed decimal number at `pos` of `s`, where it fits an `i64`.
pub fn read_int_at(s: &Vec<char>, pos: usize) -> (r: Option<(i64, usize)>)
    ensures
        r is Some <==> (int_at(s@, pos as int) matches Some((v, e)) && i64::MIN <= v <= i64::MAX),
        r matches Some((v, e)) ==> int_at(s@, pos as int) == Some((v as int, e as int)),
{
    if pos < s.len() && s[pos] == '-' {
        let (n, e) = read_nat_at(s, pos + 1, 9223372036854775808u64)?;
        if n == 9223372036854775808u64 {
            Some((i64::MIN, e))
        } else {
            Some((-(n as i64), e))
        }
    } else {
        let (n, e) = read_nat_at(s, pos, 9223372036854775807u64)?;
        Some((n as i64, e))
    }
}

/// The position after a value read, if it was read.
pub open spec fn pos_of<T>(r: Option<(T, int)>) -> Option<int> {
    match r {
        Some((_, p)) => Some(p),
        None => None,
    }
}

/// The value read, where one was read.
pub open spec fn value_of<T>(r: Option<(T, int)>) -> T {
    match r {
        Some((v, _)) => v,
        None => arbitrary(),
    }
}

/// `lit` at the position `p`, if there is one.
pub open spec fn then_expect(s: Seq<char>, p: Option<int>, lit: Seq<char>) -> Option<int> {
    match p {
        Some(q) => expect(s, q, lit),
        None => None,
    }
}

/// The string literal at the position `p`, if there is one.
pub open spec fn then_string(s: Seq<char>, p: Option<int>) -> Option<(Seq<char>, int)> {
    match p {
        Some(q) => string_at(s, q),
        None => None,
    }
}

/// The unsigned number at the position `p`, if there is one.
pub open spec fn then_nat(s: Seq<char>, p: Option<int>) -> Option<(nat, int)> {
    match p {
        Some(q) => nat_at(s, q),
        None => None,
    }
}

/// The signed number at the position `p`, if there is one.
pub open spec fn then_int(s: Seq<char>, p: Option<int>) -> Option<(int, int)> {
    match p {
        Some(q) => int_at(s, q),
        None => None,
    }
}

} // verus!
