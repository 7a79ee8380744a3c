use vstd::prelude::*;

use crate::bytes::push_all;
use crate::error::NtrError;
use crate::palette::{Color, Palette};

verus! {

/// A palette in the text palette format.
pub struct Jasc {
    pub palette: Palette,
}

/// Decimal digits of `n`, most significant first.
pub open spec fn dec(n: nat) -> Seq<u8>
    decreases n,
{
    if n < 10 {
        seq![(48 + n) as u8]
    } else {
        dec(n / 10) + seq![(48 + n % 10) as u8]
    }
}

pub open spec fn crlf() -> Seq<u8> {
    seq![13u8, 10u8]
}

/// One color line: the three channels in decimal, separated by spaces.
pub open spec fn color_line(c: Color) -> Seq<u8> {
    dec(c.red as nat) + seq![32u8] + dec(c.green as nat) + seq![32u8] + dec(c.blue as nat)
        + crlf()
}

pub open spec fn color_lines(cs: Seq<Color>) -> Seq<u8>
    decreases cs.len(),
{
    if cs.len() == 0 {
        Seq::empty()
    } else {
        color_lines(cs.drop_last()) + color_line(cs.last())
    }
}

/// The header line `JASC-PAL`.
pub open spec fn magic() -> Seq<u8> {
    seq![74u8, 65, 83, 67, 45, 80, 65, 76]
}

/// The version line `0100`.
pub open spec fn version_line() -> Seq<u8> {
    seq![48u8, 49, 48, 48]
}

/// The text of a palette: `JASC-PAL`, `0100`, the number of colors, then one
/// line per color, every line ended by CR LF.
pub open spec fn jasc_bytes(cs: Seq<Color>) -> Seq<u8> {
    magic() + crlf() + version_line() + crlf() + dec(cs.len()) + crlf() + color_lines(cs)
}

/// ASCII whitespace: space, tab, line feed, form feed, carriage return.
pub open spec fn is_ws(b: u8) -> bool {
    b == 32 || b == 9 || b == 10 || b == 12 || b == 13
}

pub open spec fn is_digit(b: u8) -> bool {
    48 <= b <= 57
}

/// The value of a run of decimal digits.
pub open spec fn digits_value(d: Seq<u8>) -> int
    decreases d.len(),
{
    if d.len() == 0 {
        0
    } else {
        digits_value(d.drop_last()) * 10 + (d.last() - 48)
    }
}

/// A number as unsigned integers are written: an optional `+`, then one or
/// more digits.
pub open spec fn number_digits(t: Seq<u8>) -> Seq<u8> {
    if t.len() > 0 && t[0] == 43 {
        t.drop_first()
    } else {
        t
    }
}

pub open spec fn is_number(t: Seq<u8>) -> bool {
    let d = number_digits(t);
    d.len() > 0 && forall|i: int| 0 <= i < d.len() ==> is_digit(#[trigger] d[i])
}

/// Where the line that starts at `pos` ends: at the next line feed, or at the end.
pub open spec fn line_end(s: Seq<u8>, pos: int) -> int
    decreases s.len() - pos,
{
    if pos < 0 || pos >= s.len() || s[pos] == 10 {
        pos
    } else {
        line_end(s, pos + 1)
    }
}

/// The line that starts at `pos`, without its line feed and, before one, a
/// carriage return.
pub open spec fn line_at(s: Seq<u8>, pos: int) -> Seq<u8> {
    let e = line_end(s, pos);
    let raw = s.subrange(pos, e);
    if e < s.len() && raw.len() > 0 && raw.last() == 13 {
        raw.drop_last()
    } else {
        raw
    }
}

/// Where the line after the one at `pos` starts.
pub open spec fn next_line(s: Seq<u8>, pos: int) -> int {
    line_end(s, pos) + 1
}

/// The whitespace-separated tokens of `l`, where `cur` holds the bytes of a
/// token already begun.
pub open spec fn tokens_from(l: Seq<u8>, cur: Seq<u8>) -> Seq<Seq<u8>>
    decreases l.len(),
{
    let done: Seq<Seq<u8>> = if cur.len() > 0 {
        seq![cur]
    } else {
        Seq::empty()
    };
    if l.len() == 0 {
        done
    } else if is_ws(l[0]) {
        done + tokens_from(l.drop_first(), Seq::empty())
    } else {
        tokens_from(l.drop_first(), cur.push(l[0]))
    }
}

/// The whitespace-separated tokens of a line.
pub open spec fn tokens(l: Seq<u8>) -> Seq<Seq<u8>> {
    tokens_from(l, Seq::empty())
}

/// Whether a token is a number of at most 255.
pub open spec fn is_byte(t: Seq<u8>) -> bool {
    is_number(t) && digits_value(number_digits(t)) <= 255
}

/// The color of a line, if it holds exactly three byte values.
pub open spec fn line_color(l: Seq<u8>) -> Option<Color> {
    let t = tokens(l);
    if t.len() == 3 && is_byte(t[0]) && is_byte(t[1]) && is_byte(t[2]) {
        Some(
            Color {
                red: digits_value(number_digits(t[0])) as u8,
                green: digits_value(number_digits(t[1])) as u8,
                blue: digits_value(number_digits(t[2])) as u8,
            },
        )
    } else {
        None
    }
}

/// The `k` colors whose lines start at `pos`, where nothing follows them.
pub open spec fn colors_from(s: Seq<u8>, pos: int, k: nat) -> Option<Seq<Color>>
    decreases k,
{
    if pos >= s.len() {
        if k == 0 {
            Some(Seq::empty())
        } else {
            None
        }
    } else if k == 0 {
        None
    } else {
        match line_color(line_at(s, pos)) {
            Some(c) => match colors_from(s, next_line(s, pos), (k - 1) as nat) {
                Some(rest) => Some(seq![c] + rest),
                None => None,
            },
            None => None,
        }
    }
}

/// The colors of a text palette: the lines `JASC-PAL` and `0100`, a line with
/// the number of colors, then exactly that many color lines.
pub open spec fn jasc_parse(s: Seq<u8>) -> Option<Seq<Color>> {
    let second = next_line(s, 0);
    let third = next_line(s, second);
    let count = line_at(s, third);
    if 0 < s.len() && line_at(s, 0) == magic() && second < s.len() && line_at(s, second)
        == version_line() && third < s.len() && is_number(count) && digits_value(
        number_digits(count),
    ) <= usize::MAX {
        colors_from(s, next_line(s, third), digits_value(number_digits(count)) as nat)
    } else {
        None
    }
}

/// Appends the decimal digits of `n`.
fn push_dec(out: &mut Vec<u8>, n: usize)
    ensures
        final(out)@ == old(out)@ + dec(n as nat),
    decreases n,
{
    if n < 10 {
        out.push((48 + n) as u8);
        assert(final(out)@ =~= old(out)@ + dec(n as nat));
    } else {
        push_dec(out, n / 10);
        out.push((48 + n % 10) as u8);
        assert(final(out)@ =~= old(out)@ + dec(n as nat));
    }
}

impl Jasc {
    pub fn from_palette(palette: Palette) -> (r: Self)
        ensures
            r.palette.colors@ == palette.colors@,
    {
        Jasc { palette }
    }

    pub fn to_palette(self) -> (r: Palette)
        ensures
            r.colors@ == self.palette.colors@,
    {
        self.palette
    }

    /// The text of the palette, every line ended by CR LF.
    pub fn write_to_data(&self) -> (r: Vec<u8>)
        ensures
            r@ == jasc_bytes(self.palette.colors@),
    {
        let cs = self.palette.colors.as_slice();
        let mut out: Vec<u8> = Vec::new();
        push_all(&mut out, &[74u8, 65, 83, 67, 45, 80, 65, 76, 13, 10, 48, 49, 48, 48, 13, 10]);
        push_dec(&mut out, cs.len());
        out.push(13);
        out.push(10);
        let ghost head = out@;
        assert(head =~= magic() + crlf() + version_line() + crlf() + dec(cs@.len()) + crlf());
        let mut i: usize = 0;
        while i < cs.len()
            invariant
                cs@ == self.palette.colors@,
                i <= cs@.len(),
                out@ == head + color_lines(cs@.take(i as int)),
            decreases cs@.len() - i,
        {
            assert(cs@.take(i + 1).drop_last() =~= cs@.take(i as int));
            let c = cs[i];
            push_dec(&mut out, c.red as usize);
            out.push(32);
            push_dec(&mut out, c.green as usize);
            out.push(32);
            push_dec(&mut out, c.blue as usize);
            out.push(13);
            out.push(10);
            i = i + 1;
            assert(out@ =~= head + color_lines(cs@.take(i as int)));
        }
        assert(cs@.take(i as int) =~= cs@);
        out
    }
}

/// Finds the line at `pos`: where its text ends and where the next line starts.
fn line_bounds(s: &[u8], pos: usize) -> (r: (usize, usize))
    requires
        pos < s@.len(),
    ensures
        pos <= r.0 <= s@.len(),
        s@.subrange(pos as int, r.0 as int) == line_at(s@, pos as int),
        r.1 < s@.len() ==> r.1 == next_line(s@, pos as int),
        r.1 >= s@.len() <==> next_line(s@, pos as int) >= s@.len(),
        r.1 > pos,
{
    let mut e = pos;
    while e < s.len() && s[e] != 10
        invariant
            pos <= e <= s@.len(),
            line_end(s@, pos as int) == line_end(s@, e as int),
        decreases s@.len() - e,
    {
        e = e + 1;
    }
    let end = if e < s.len() && e > pos && s[e - 1] == 13 {
        e - 1
    } else {
        e
    };
    assert(s@.subrange(pos as int, end as int) =~= line_at(s@, pos as int));
    let next = if e < s.len() {
        e + 1
    } else {
        e
    };
    (end, next)
}

proof fn lemma_digits_nonneg(d: Seq<u8>)
    requires
        forall|k: int| 0 <= k < d.len() ==> is_digit(#[trigger] d[k]),
    ensures
        digits_value(d) >= 0,
    decreases d.len(),
{
    if d.len() > 0 {
        assert forall|k: int| 0 <= k < d.drop_last().len() implies is_digit(
            #[trigger] d.drop_last()[k],
        ) by {
            assert(d.drop_last()[k] == d[k]);
        }
        lemma_digits_nonneg(d.drop_last());
        assert(is_digit(d[d.len() - 1]));
    }
}

proof fn lemma_digits_prefix(d: Seq<u8>, i: int)
    requires
        0 <= i <= d.len(),
        forall|k: int| 0 <= k < d.len() ==> is_digit(#[trigger] d[k]),
    ensures
        digits_value(d.take(i)) <= digits_value(d),
    decreases d.len() - i,
{
    if i < d.len() {
        lemma_digits_prefix(d, i + 1);
        assert(d.take(i + 1).drop_last() =~= d.take(i));
        assert forall|k: int| 0 <= k < d.take(i).len() implies is_digit(#[trigger] d.take(i)[k]) by {
            assert(d.take(i)[k] == d[k]);
        }
        lemma_digits_nonneg(d.take(i));
        assert(is_digit(d[i]));
        assert(d.take(i + 1).last() == d[i]);
    } else {
        assert(d.take(i) =~= d);
    }
}

/// Reads a number token of at most `limit`.
fn parse_number(t: &[u8], limit: u64) -> (r: Option<u64>)
    requires
        limit >= 9,
    ensures
        r is Some <==> is_number(t@) && digits_value(number_digits(t@)) <= limit,
        r matches Some(v) ==> v == digits_value(number_digits(t@)),
{
    let start: usize = if t.len() > 0 && t[0] == 43 { 1 } else { 0 };
    let ghost d = number_digits(t@);
    assert(d =~= t@.skip(start as int));
    if start >= t.len() {
        return None;
    }
    let mut v: u64 = 0;
    let mut i: usize = start;
    while i < t.len()
        invariant
            d == t@.skip(start as int),
            d == number_digits(t@),
            limit >= 9,
            start <= i <= t@.len(),
            forall|k: int| 0 <= k < i - start ==> is_digit(#[trigger] d[k]),
            v == digits_value(d.take(i - start)),
            v <= limit,
        decreases t@.len() - i,
    {
        let b = t[i];
        if b < 48 || b > 57 {
            assert(!is_digit(d[i - start]));
            return None;
        }
        assert(d.take(i - start + 1).drop_last() =~= d.take(i - start));
        if v > (limit - (b - 48) as u64) / 10 {
            proof {
                let dg = (b - 48) as int;
                assert(v * 10 + dg > limit) by (nonlinear_arith)
                    requires
                        v > (limit - dg) / 10,
                        0 <= dg <= 9,
                        limit >= 9,
                ;
                assert(d.take(i - start + 1).last() == b);
                assert forall|k: int| 0 <= k < i - start + 1 implies is_digit(#[trigger] d.take(i - start + 1)[k]) by {
                    assert(d.take(i - start + 1)[k] == d[k]);
                }
                if is_number(t@) {
                    lemma_digits_prefix(d, i - start + 1);
                }
            }
            return None;
        }
        v = v * 10 + (b - 48) as u64;
        i = i + 1;
    }
    assert(d.take(i - start) =~= d);
    Some(v)
}

/// The whitespace-separated tokens of a line.
fn line_tokens(l: &[u8]) -> (r: Vec<Vec<u8>>)
    ensures
        r@.map_values(|t: Vec<u8>| t@) == tokens(l@),
{
    let mut out: Vec<Vec<u8>> = Vec::new();
    let mut cur: Vec<u8> = Vec::new();
    let mut i: usize = 0;
    assert(l@.skip(0) =~= l@);
    assert(out@.map_values(|t: Vec<u8>| t@) =~= Seq::<Seq<u8>>::empty());
    assert(cur@ =~= Seq::<u8>::empty());
    while i < l.len()
        invariant
            i <= l@.len(),
            tokens(l@) == out@.map_values(|t: Vec<u8>| t@) + tokens_from(l@.skip(i as int), cur@),
        decreases l@.len() - i,
    {
        let b = l[i];
        assert(l@.skip(i as int).drop_first() =~= l@.skip(i + 1));
        let ghost old_out = out@.map_values(|t: Vec<u8>| t@);
        if b == 32 || b == 9 || b == 10 || b == 12 || b == 13 {
            if cur.len() > 0 {
                let ghost c = cur@;
                out.push(cur);
                cur = Vec::new();
                assert(out@.map_values(|t: Vec<u8>| t@) =~= old_out + seq![c]);
            } else {
                assert(cur@ =~= Seq::<u8>::empty());
                assert(old_out + Seq::<Seq<u8>>::empty() =~= old_out);
            }
        } else {
            cur.push(b);
        }
        i = i + 1;
    }
    let ghost old_out = out@.map_values(|t: Vec<u8>| t@);
    if cur.len() > 0 {
        let ghost c = cur@;
        out.push(cur);
        assert(out@.map_values(|t: Vec<u8>| t@) =~= old_out + seq![c]);
    } else {
        assert(old_out + Seq::<Seq<u8>>::empty() =~= old_out);
    }
    out
}

/// Whether two byte strings are equal.
fn bytes_eq(a: &[u8], b: &[u8]) -> (r: bool)
    ensures
        r == (a@ == b@),
{
    if a.len() != b.len() {
        return false;
    }
    let mut i: usize = 0;
    while i < a.len()
        invariant
            a@.len() == b@.len(),
            i <= a@.len(),
            forall|k: int| 0 <= k < i ==> a@[k] == b@[k],
        decreases a@.len() - i,
    {
        if a[i] != b[i] {
            return false;
        }
        i = i + 1;
    }
    assert(a@ =~= b@);
    true
}

impl Jasc {
    /// Reads a text palette: see `jasc_parse`. Lines end with LF or CR LF.
    pub fn read_from_data(data: &[u8]) -> (r: Result<Jasc, NtrError>)
        ensures
            r is Ok <==> jasc_parse(data@) is Some,
            r matches Ok(j) ==> jasc_parse(data@) == Some(j.palette.colors@),
    {
        let ghost s = data@;
        if data.len() == 0 {
            return Err(NtrError::Malformed);
        }
        let (e0, second) = line_bounds(data, 0);
        if !bytes_eq(crate::bytes::copy_range(data, 0, e0).as_slice(), &[74u8, 65, 83, 67, 45, 80, 65, 76]) || second >= data.len() {
            return Err(NtrError::Malformed);
        }
        let (e1, third) = line_bounds(data, second);
        if !bytes_eq(crate::bytes::copy_range(data, second, e1).as_slice(), &[48u8, 49, 48, 48]) || third >= data.len() {
            return Err(NtrError::Malformed);
        }
        let (e2, colors_start) = line_bounds(data, third);
        let count = match parse_number(crate::bytes::copy_range(data, third, e2).as_slice(), usize::MAX as u64) {
            Some(v) => v as usize,
            None => {
                return Err(NtrError::Malformed);
            },
        };
        let mut colors: Vec<Color> = Vec::new();
        let mut pos: usize = colors_start;
        let mut k: usize = 0;
        while k < count
            invariant
                s == data@,
                k <= count,
                jasc_parse(s) == (match colors_from(s, pos as int, (count - k) as nat) {
                    Some(rest) => Some(colors@ + rest),
                    None => None,
                }),
            decreases count - k,
        {
            if pos >= data.len() {
                return Err(NtrError::Malformed);
            }
            let (e, next) = line_bounds(data, pos);
            let toks = line_tokens(crate::bytes::copy_range(data, pos, e).as_slice());
            let ghost tv = toks@.map_values(|t: Vec<u8>| t@);
            if toks.len() != 3 {
                return Err(NtrError::Malformed);
            }
            assert(tv[0] == toks@[0]@ && tv[1] == toks@[1]@ && tv[2] == toks@[2]@);
            let red = parse_number(toks[0].as_slice(), 255);
            let green = parse_number(toks[1].as_slice(), 255);
            let blue = parse_number(toks[2].as_slice(), 255);
            match (red, green, blue) {
                (Some(r), Some(g), Some(b)) => {
                    let c = Color { red: r as u8, green: g as u8, blue: b as u8 };
                    assert(line_color(line_at(s, pos as int)) == Some(c));
                    proof {
                        let m = (count - k - 1) as nat;
                        if next >= data.len() {
                            assert(colors_from(s, next as int, m) == colors_from(
                                s,
                                next_line(s, pos as int),
                                m,
                            ));
                        }
                        assert(colors_from(s, pos as int, (count - k) as nat) == (match colors_from(
                            s,
                            next as int,
                            m,
                        ) {
                            Some(rest) => Some(seq![c] + rest),
                            None => None,
                        }));
                        let rest = colors_from(s, next as int, (count - k - 1) as nat);
                        if let Some(rr) = rest {
                            assert(colors@ + (seq![c] + rr) =~= colors@.push(c) + rr);
                        }
                    }
                    colors.push(c);
                },
                _ => {
                    return Err(NtrError::Malformed);
                },
            }
            pos = next;
            k = k + 1;
        }
        if pos < data.len() {
            return Err(NtrError::Malformed);
        }
        assert(colors@ + Seq::<Color>::empty() =~= colors@);
        Ok(Jasc { palette: Palette { colors } })
    }
}

} // verus!
