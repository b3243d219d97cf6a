//! Character-level string building blocks shared by the renderers.
use vstd::prelude::*;

verus! {

/// Relies on `String::push`: the character is appended at the end.
pub assume_specification[ String::push ](s: &mut String, ch: char)
    ensures
        final(s)@ == old(s)@.push(ch),
;

/// The character for a hexadecimal digit value, in lower case.
pub open spec fn hex_digit(n: int) -> char {
    if n < 10 {
        ('0' as int + n) as char
    } else {
        ('a' as int + (n - 10)) as char
    }
}

/// The two lower-case hexadecimal digits of a byte.
pub open spec fn hex_byte(b: u8) -> Seq<char> {
    seq![hex_digit(b as int / 16), hex_digit(b as int % 16)]
}

pub fn hex_digit_char(n: u8) -> (c: char)
    requires
        n < 16,
    ensures
        c == hex_digit(n as int),
{
    if n < 10 {
        ((48u8 + n) as char)
    } else {
        ((87u8 + n) as char)
    }
}

/// Appends the two lower-case hexadecimal digits of `b`.
pub fn push_hex_byte(out: &mut String, b: u8)
    ensures
        final(out)@ == old(out)@ + hex_byte(b),
{
    out.push(hex_digit_char(b / 16));
    out.push(hex_digit_char(b % 16));
    assert(final(out)@ =~= old(out)@ + hex_byte(b));
}

/// The decimal digits of `n`, without leading zeros.
pub open spec fn decimal(n: nat) -> Seq<char>
    decreases n,
{
    if n < 10 {
        seq![('0' as int + n) as char]
    } else {
        decimal(n / 10).push(('0' as int + n % 10) as char)
    }
}

/// Appends the decimal digits of `n`.
pub fn push_decimal(out: &mut String, n: u32)
    ensures
        final(out)@ == old(out)@ + decimal(n as nat),
    decreases n,
{
    if n >= 10 {
        push_decimal(out, n / 10);
    }
    let d: u8 = (n % 10) as u8;
    out.push((48u8 + d) as char);
    assert(final(out)@ =~= old(out)@ + decimal(n as nat));
}

/// The parts joined with `sep` between each two neighbours.
pub open spec fn join(parts: Seq<Seq<char>>, sep: Seq<char>) -> Seq<char>
    decreases parts.len(),
{
    if parts.len() == 0 {
        Seq::empty()
    } else if parts.len() == 1 {
        parts[0]
    } else {
        join(parts.drop_last(), sep) + sep + parts.last()
    }
}

/// The characters of `s`, in order.
pub fn chars_of(s: &str) -> (r: Vec<char>)
    ensures
        r@ == s@,
{
    let mut out: Vec<char> = Vec::new();
    for c in it: s.chars()
        invariant
            out@ == it.seq().take(it.index() as int),
    {
        out.push(c);
    }
    out
}

/// No character of `t` is `c`.
pub open spec fn lacks(t: Seq<char>, c: char) -> bool {
    forall|i: int| 0 <= i < t.len() ==> t[i] != c
}

/// The pieces of `t` between occurrences of `sep`; one more than there are
/// occurrences.
pub open spec fn split_char(t: Seq<char>, sep: char) -> Seq<Seq<char>>
    decreases t.len(),
{
    if t.len() == 0 {
        seq![Seq::empty()]
    } else {
        let p = split_char(t.drop_last(), sep);
        if t.last() == sep {
            p.push(Seq::empty())
        } else {
            p.update(p.len() - 1, p.last().push(t.last()))
        }
    }
}

/// Splitting at `sep` and joining with `sep` gives back the text; no piece holds `sep`.
pub proof fn lemma_split_char(t: Seq<char>, sep: char)
    ensures
        split_char(t, sep).len() >= 1,
        join(split_char(t, sep), seq![sep]) == t,
        forall|k: int| 0 <= k < split_char(t, sep).len() ==> lacks(#[trigger] split_char(t, sep)[k], sep),
    decreases t.len(),
{
    if t.len() > 0 {
        let u = t.drop_last();
        lemma_split_char(u, sep);
        let p = split_char(u, sep);
        let q = split_char(t, sep);
        if t.last() == sep {
            assert(q.drop_last() =~= p);
            assert(t =~= u + seq![sep] + Seq::<char>::empty());
        } else {
            let x = p.last().push(t.last());
            assert(q.last() == x);
            assert forall|k: int| 0 <= k < q.len() implies lacks(#[trigger] q[k], sep) by {
                if k < q.len() - 1 {
                    assert(q[k] == p[k]);
                }
            }
            if p.len() == 1 {
                assert(t =~= x);
            } else {
                assert(q.drop_last() =~= p.drop_last());
                assert(join(p, seq![sep]) == join(p.drop_last(), seq![sep]) + seq![sep] + p.last());
                assert(t =~= u.push(t.last()));
                assert(u == join(p.drop_last(), seq![sep]) + seq![sep] + p.last());
                assert(t =~= join(p.drop_last(), seq![sep]) + seq![sep] + x);
            }
        }
    }
}

/// The characters `s[from..to]` as a string.
pub fn string_from_range(s: &Vec<char>, from: usize, to: usize) -> (r: String)
    requires
        from <= to <= s.len(),
    ensures
        r@ == s@.subrange(from as int, to as int),
{
    let mut out = String::new();
    let mut k: usize = from;
    while k < to
        invariant
            from <= k <= to <= s.len(),
            out@ == s@.subrange(from as int, k as int),
        decreases to - k,
    {
        out.push(s[k]);
        assert(out@ =~= s@.subrange(from as int, k + 1));
        k = k + 1;
    }
    out
}

/// The views of a sequence of strings.
pub open spec fn strings_view(v: Seq<String>) -> Seq<Seq<char>> {
    v.map_values(|s: String| s@)
}

/// The strings joined with `sep` between each two neighbours.
pub fn join_strings(parts: &Vec<String>, sep: &str) -> (r: String)
    ensures
        r@ == join(strings_view(parts@), sep@),
{
    let mut out = String::new();
    let mut k: usize = 0;
    while k < parts.len()
        invariant
            k <= parts.len(),
            out@ == join(strings_view(parts@).take(k as int), sep@),
        decreases parts.len() - k,
    {
        let ghost pv = strings_view(parts@).take(k as int + 1);
        assert(pv.drop_last() =~= strings_view(parts@).take(k as int));
        if k > 0 {
            out.append(sep);
        }
        out.append(parts[k].as_str());
        proof {
            if k == 0 {
                assert(out@ =~= pv[0]);
            }
        }
        k = k + 1;
    }
    assert(strings_view(parts@).take(parts.len() as int) =~= strings_view(parts@));
    out
}

} // verus!
