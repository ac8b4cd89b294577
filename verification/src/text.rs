//! Character-level string helpers.
use vstd::prelude::*;

verus! {

/// `String::push` appends one character (std documentation: "Appends the
/// given char to the end of this String").
pub assume_specification[ String::push ](s: &mut String, ch: char)
    ensures
        final(s)@ == old(s)@.push(ch),
;

/// The characters of `s`, in order.
pub fn chars_of(s: &str) -> (v: Vec<char>)
    ensures
        v@ == s@,
{
    let mut v: Vec<char> = Vec::new();
    for c in it: s.chars()
        invariant
            v@ == it.seq().take(it.index() as int),
            it.seq() == s@,
    {
        v.push(c);
    }
    v
}

/// The characters `chars[a..b]` as a string.
pub fn string_from_chars(chars: &Vec<char>, a: usize, b: usize) -> (s: String)
    requires
        a <= b <= chars@.len(),
    ensures
        s@ == chars@.subrange(a as int, b as int),
{
    let mut s = String::new();
    let mut k = a;
    while k < b
        invariant
            a <= k <= b,
            b <= chars@.len(),
            s@ == chars@.subrange(a as int, k as int),
        decreases b - k,
    {
        s.push(chars[k]);
        proof {
            assert(chars@.subrange(a as int, k + 1) =~= chars@.subrange(a as int, k as int).push(chars@[k as int]));
        }
        k = k + 1;
    }
    s
}

/// The decimal digit for `d` (0 to 9).
pub open spec fn digit_char(d: int) -> char {
    (48 + d) as char
}

/// Decimal notation of `n`, without leading zeros.
pub open spec fn decimal(n: nat) -> Seq<char>
    decreases n,
{
    if n < 10 {
        seq![digit_char(n as int)]
    } else {
        decimal(n / 10).push(digit_char((n % 10) as int))
    }
}

/// Decimal notation of `n`, with a minus sign when negative.
pub open spec fn signed_decimal(n: int) -> Seq<char> {
    if n < 0 {
        seq!['-'] + decimal((-n) as nat)
    } else {
        decimal(n as nat)
    }
}

/// Decimal notation of `n` padded with zeros to at least two digits.
pub open spec fn two_digits(n: nat) -> Seq<char> {
    if n < 10 {
        seq!['0'] + decimal(n)
    } else {
        decimal(n)
    }
}

/// `parts` joined with `sep` between consecutive parts.
pub open spec fn join(parts: Seq<Seq<char>>, sep: Seq<char>) -> Seq<char>
    decreases parts.len(),
{
    if parts.len() == 0 {
        Seq::empty()
    } else if parts.len() == 1 {
        parts[0]
    } else {
        join(parts.drop_last(), sep) + sep + parts.last()
    }
}

/// Appends `s` to `out`.
pub fn push_str(out: &mut String, s: &str)
    ensures
        final(out)@ == old(out)@ + s@,
{
    out.append(s);
}

/// Appends the decimal notation of `n` to `out`.
pub fn push_decimal(out: &mut String, n: u64)
    ensures
        final(out)@ == old(out)@ + decimal(n as nat),
    decreases n,
{
    let ghost o = out@;
    if n >= 10 {
        push_decimal(out, n / 10);
    }
    let d = (n % 10) as u8;
    let c = (48u8 + d) as char;
    out.push(c);
    proof {
        if n >= 10 {
            assert(out@ =~= o + decimal(n as nat));
        } else {
            assert(out@ =~= o + decimal(n as nat));
        }
    }
}

/// Appends the decimal notation of `n`, with a minus sign when negative, to `out`.
pub fn push_signed(out: &mut String, n: i64)
    ensures
        final(out)@ == old(out)@ + signed_decimal(n as int),
{
    let ghost o = out@;
    if n < 0 {
        out.push('-');
        let m: u64 = if n == i64::MIN { 9223372036854775808u64 } else { (-n) as u64 };
        push_decimal(out, m);
        assert(out@ =~= o + signed_decimal(n as int));
    } else {
        push_decimal(out, n as u64);
    }
}

/// Appends `n` in decimal, padded with zeros to at least two digits, to `out`.
pub fn push_two_digits(out: &mut String, n: u64)
    ensures
        final(out)@ == old(out)@ + two_digits(n as nat),
{
    let ghost o = out@;
    if n < 10 {
        out.push('0');
        push_decimal(out, n);
        assert(out@ =~= o + two_digits(n as nat));
    } else {
        push_decimal(out, n);
    }
}

/// The decimal notation of `n`.
pub fn decimal_string(n: u64) -> (s: String)
    ensures
        s@ == decimal(n as nat),
{
    let mut s = String::new();
    push_decimal(&mut s, n);
    assert(s@ =~= decimal(n as nat));
    s
}

/// Joins `parts` with `sep` between consecutive parts.
pub fn join_strings(parts: &Vec<String>, sep: &str) -> (s: String)
    ensures
        s@ == join(parts@.map_values(|p: String| p@), sep@),
{
    let ghost ps = parts@.map_values(|p: String| p@);
    let mut s = String::new();
    let mut k: usize = 0;
    while k < parts.len()
        invariant
            k <= parts@.len(),
            ps == parts@.map_values(|p: String| p@),
            s@ == join(ps.take(k as int), sep@),
        decreases parts@.len() - k,
    {
        let ghost before = s@;
        if k > 0 {
            push_str(&mut s, sep);
        }
        push_str(&mut s, parts[k].as_str());
        proof {
            let t = ps.take(k + 1);
            assert(t.drop_last() =~= ps.take(k as int));
            assert(t.last() == parts@[k as int]@);
            if k == 0 {
                assert(t.len() == 1);
                assert(before =~= Seq::<char>::empty());
                assert(s@ =~= t[0]);
            } else {
                assert(s@ =~= before + sep@ + t.last());
            }
        }
        k = k + 1;
    }
    assert(ps.take(parts@.len() as int) =~= ps);
    s
}

/// Whether `c` has the Unicode `White_Space` property (what `char::is_whitespace` tests).
pub open spec fn is_white_space(c: char) -> bool {
    let v = c as u32;
    ||| 0x09 <= v <= 0x0d
    ||| v == 0x20
    ||| v == 0x85
    ||| v == 0xa0
    ||| v == 0x1680
    ||| 0x2000 <= v <= 0x200a
    ||| v == 0x2028
    ||| v == 0x2029
    ||| v == 0x202f
    ||| v == 0x205f
    ||| v == 0x3000
}

/// Whether `c` is white space (Unicode `White_Space`).
pub fn white_space(c: char) -> (b: bool)
    ensures
        b == is_white_space(c),
{
    let v = c as u32;
    (0x09 <= v && v <= 0x0d) || v == 0x20 || v == 0x85 || v == 0xa0 || v == 0x1680 || (0x2000 <= v && v
        <= 0x200a) || v == 0x2028 || v == 0x2029 || v == 0x202f || v == 0x205f || v == 0x3000
}

/// `s` without its trailing white space.
pub open spec fn trim_end_spec(s: Seq<char>) -> Seq<char>
    decreases s.len(),
{
    if s.len() > 0 && is_white_space(s.last()) {
        trim_end_spec(s.drop_last())
    } else {
        s
    }
}

/// `s` without its leading white space.
pub open spec fn trim_start_spec(s: Seq<char>) -> Seq<char>
    decreases s.len(),
{
    if s.len() > 0 && is_white_space(s[0]) {
        trim_start_spec(s.drop_first())
    } else {
        s
    }
}

/// `s` without leading and trailing white space.
pub open spec fn trim_spec(s: Seq<char>) -> Seq<char> {
    trim_start_spec(trim_end_spec(s))
}

/// Number of characters left once trailing white space of `chars[..end]` is removed.
fn trimmed_end(chars: &Vec<char>, end: usize) -> (e: usize)
    requires
        end <= chars@.len(),
    ensures
        e <= end,
        chars@.subrange(0, e as int) == trim_end_spec(chars@.subrange(0, end as int)),
{
    let mut e = end;
    while e > 0 && white_space(chars[e - 1])
        invariant
            e <= end,
            end <= chars@.len(),
            trim_end_spec(chars@.subrange(0, e as int)) == trim_end_spec(chars@.subrange(0, end as int)),
        decreases e,
    {
        assert(chars@.subrange(0, e as int).drop_last() =~= chars@.subrange(0, e - 1));
        e = e - 1;
    }
    e
}

/// Index of the first character of `chars[start..end]` that is not white space (or `end`).
fn trimmed_start(chars: &Vec<char>, start: usize, end: usize) -> (b: usize)
    requires
        start <= end <= chars@.len(),
    ensures
        start <= b <= end,
        chars@.subrange(b as int, end as int) == trim_start_spec(chars@.subrange(start as int, end as int)),
{
    let mut b = start;
    while b < end && white_space(chars[b])
        invariant
            start <= b <= end,
            end <= chars@.len(),
            trim_start_spec(chars@.subrange(b as int, end as int)) == trim_start_spec(
                chars@.subrange(start as int, end as int),
            ),
        decreases end - b,
    {
        assert(chars@.subrange(b as int, end as int).drop_first() =~= chars@.subrange(b + 1, end as int));
        b = b + 1;
    }
    assert(b < end ==> !is_white_space(chars@.subrange(b as int, end as int)[0]));
    b
}

/// `s` without leading and trailing white space.
pub fn trim(s: &str) -> (t: String)
    ensures
        t@ == trim_spec(s@),
{
    let chars = chars_of(s);
    let e = trimmed_end(&chars, chars.len());
    assert(chars@.subrange(0, chars@.len() as int) =~= chars@);
    let b = trimmed_start(&chars, 0, e);
    string_from_chars(&chars, b, e)
}

/// `s` without trailing white space.
pub fn trim_end(s: &str) -> (t: String)
    ensures
        t@ == trim_end_spec(s@),
{
    let chars = chars_of(s);
    let e = trimmed_end(&chars, chars.len());
    assert(chars@.subrange(0, chars@.len() as int) =~= chars@);
    string_from_chars(&chars, 0, e)
}

/// The pieces of `s` between occurrences of `sep` (`str::split` with a
/// character): as many pieces as separators plus one, possibly empty.
pub open spec fn split_spec(s: Seq<char>, sep: char) -> Seq<Seq<char>>
    decreases s.len(),
{
    if s.len() == 0 {
        seq![Seq::empty()]
    } else {
        let r = split_spec(s.drop_last(), sep);
        if s.last() == sep {
            r.push(Seq::empty())
        } else {
            r.update(r.len() - 1, r.last().push(s.last()))
        }
    }
}

proof fn lemma_split_nonempty(s: Seq<char>, sep: char)
    ensures
        split_spec(s, sep).len() >= 1,
    decreases s.len(),
{
    if s.len() > 0 {
        lemma_split_nonempty(s.drop_last(), sep);
    }
}

/// Splits `s` at every `sep`.
pub fn split_on(s: &str, sep: char) -> (parts: Vec<String>)
    ensures
        parts@.map_values(|p: String| p@) == split_spec(s@, sep),
{
    let chars = chars_of(s);
    let mut parts: Vec<String> = Vec::new();
    let mut piece_start: usize = 0;
    let mut k: usize = 0;
    while k < chars.len()
        invariant
            k <= chars@.len(),
            chars@ == s@,
            piece_start <= k,
            ({
                let r = split_spec(s@.take(k as int), sep);
                &&& parts@.len() + 1 == r.len()
                &&& forall|q: int| 0 <= q < parts@.len() ==> #[trigger] parts@[q]@ == r[q]
                &&& r.last() == chars@.subrange(piece_start as int, k as int)
            }),
        decreases chars@.len() - k,
    {
        proof {
            lemma_split_nonempty(s@.take(k as int), sep);
            assert(s@.take(k + 1).drop_last() =~= s@.take(k as int));
        }
        if chars[k] == sep {
            let p = string_from_chars(&chars, piece_start, k);
            parts.push(p);
            piece_start = k + 1;
            proof {
                assert(chars@.subrange(piece_start as int, k + 1) =~= Seq::<char>::empty());
            }
        } else {
            proof {
                assert(chars@.subrange(piece_start as int, k + 1) =~= chars@.subrange(
                    piece_start as int,
                    k as int,
                ).push(chars@[k as int]));
            }
        }
        k = k + 1;
    }
    let last = string_from_chars(&chars, piece_start, chars.len());
    parts.push(last);
    proof {
        assert(s@.take(chars@.len() as int) =~= s@);
        assert(parts@.map_values(|p: String| p@) =~= split_spec(s@, sep));
    }
    parts
}

/// Whether `s` begins with `prefix`.
pub open spec fn starts_with_spec(s: Seq<char>, prefix: Seq<char>) -> bool {
    prefix.len() <= s.len() && s.subrange(0, prefix.len() as int) == prefix
}

/// Whether `s` begins with `prefix`.
pub fn starts_with(s: &Vec<char>, prefix: &str) -> (b: bool)
    ensures
        b == starts_with_spec(s@, prefix@),
{
    let p = chars_of(prefix);
    if p.len() > s.len() {
        return false;
    }
    let mut k: usize = 0;
    while k < p.len()
        invariant
            k <= p@.len(),
            p@ == prefix@,
            p@.len() <= s@.len(),
            forall|q: int| 0 <= q < k ==> s@[q] == p@[q],
        decreases p@.len() - k,
    {
        if s[k] != p[k] {
            assert(s@.subrange(0, p@.len() as int)[k as int] != prefix@[k as int]);
            return false;
        }
        k = k + 1;
    }
    assert(s@.subrange(0, p@.len() as int) =~= prefix@);
    true
}

/// Whether the strings `a` and `b` hold the same characters.
pub fn same_text(a: &str, b: &str) -> (r: bool)
    ensures
        r == (a@ == b@),
{
    let x = chars_of(a);
    let y = chars_of(b);
    if x.len() != y.len() {
        return false;
    }
    let mut k: usize = 0;
    while k < x.len()
        invariant
            k <= x@.len(),
            x@.len() == y@.len(),
            x@ == a@,
            y@ == b@,
            forall|q: int| 0 <= q < k ==> x@[q] == y@[q],
        decreases x@.len() - k,
    {
        if x[k] != y[k] {
            return false;
        }
        k = k + 1;
    }
    assert(x@ =~= y@);
    true
}

} // verus!
