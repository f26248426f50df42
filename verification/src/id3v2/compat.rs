//! Conversions between ID3v2 versions.
use crate::id3v2::collections::{
    added, entries_insert, entries_remove, id_list, keys_sorted, kept, kept_place,
    lemma_kept_place, lemma_lookup_remove, lookup, marks_ids, FrameMap,
};
use crate::id3v2::frames::text::{ipls, is_text_id, known_id, people_extend, tipl, tmcl};
use crate::id3v2::frames::{
    ascii_chars, id_code, legacy_code, legacy_code_of, strings_view, valid_frame_id, AnyFrame,
    CreditsFrame, Frame, FrameId, TextFrame,
};
use crate::string::Encoding;
use crate::id3v2::{ParseError, ParseResult};
use crate::string::{chars_of, push_char, push_str_chars};
use vstd::prelude::*;
use vstd::string::StringSliceAdditionalSpecFns;
use vstd::utf8::{decode_utf8, encode_utf8, is_char_boundary, valid_utf8};

verus! {

// ---- Timestamps ----

/// `s` with zeros in front of it up to four characters, as `format!("{:0>4}", s)` writes it.
pub open spec fn pad4(s: Seq<char>) -> Seq<char> {
    if s.len() < 4 {
        Seq::new((4 - s.len()) as nat, |i: int| '0') + s
    } else {
        s
    }
}

/// Writes `s` with zeros in front of it up to four characters.
pub fn pad_year(s: &str) -> (r: String)
    ensures
        r@ == pad4(s@),
{
    let chars = chars_of(s);
    let mut r = String::new();
    let mut n: usize = chars.len();
    while n < 4
        invariant
            chars@ == s@,
            chars.len() <= n,
            n <= 4 || n == chars.len(),
            r@ == Seq::new((n - chars.len()) as nat, |i: int| '0'),
        decreases 4 - n,
    {
        push_char(&mut r, '0');
        proof {
            assert(r@ =~= Seq::new((n + 1 - chars.len()) as nat, |i: int| '0'));
        }
        n = n + 1;
    }
    push_str_chars(&mut r, chars.as_slice(), 0, chars.len());
    proof {
        assert(chars@.subrange(0, chars.len() as int) =~= chars@);
        if chars.len() >= 4 {
            assert(r@ =~= s@);
        } else {
            assert(n == 4);
            assert(r@ =~= pad4(s@));
        }
    }
    r
}

/// The number of bytes of the UTF-8 form of `s`.
pub open spec fn byte_len(s: Seq<char>) -> nat {
    encode_utf8(s).len()
}

/// The characters of the bytes `from` up to `to` of the UTF-8 form of `s`.
pub open spec fn byte_part(s: Seq<char>, from: int, to: int) -> Seq<char> {
    decode_utf8(encode_utf8(s).subrange(from, to))
}

/// Whether a string of four bytes or more can be cut after its second and fourth byte, as
/// slicing it there without a panic requires.
pub open spec fn cuts_cleanly(s: Seq<char>) -> bool {
    byte_len(s) < 4 || (is_char_boundary(encode_utf8(s), 2) && is_char_boundary(encode_utf8(s), 4))
}

/// The `-MM-dd` part of a timestamp, from an `MMDD` `TDAT` string cut after two and four
/// bytes.
pub open spec fn date_part(mmdd: Seq<char>) -> Seq<char> {
    seq!['-'] + byte_part(mmdd, 0, 2) + seq!['-'] + byte_part(mmdd, 2, 4)
}

/// The `THH:mm` part of a timestamp, from a `TIME` string cut after two and four bytes.
pub open spec fn time_part(hhmm: Seq<char>) -> Seq<char> {
    seq!['T'] + byte_part(hhmm, 0, 2) + seq![':'] + byte_part(hhmm, 2, 4)
}

/// The timestamps made of the `TYER` strings from the `k`-th on, each with the `TDAT` string
/// of the same place where it has four bytes or more, and then the next `TIME` string, the
/// `t`-th, where it has four bytes or more. A `TIME` string is used up by every `TDAT` string
/// of four bytes or more.
pub open spec fn tdrc_stamps(tyer: Seq<Seq<char>>, tdat: Seq<Seq<char>>, time: Seq<Seq<char>>, k: nat, t: nat) -> Seq<Seq<char>>
    decreases tyer.len() - k,
{
    if k >= tyer.len() {
        Seq::empty()
    } else {
        let year = pad4(tyer[k as int]);
        if k < tdat.len() && byte_len(tdat[k as int]) >= 4 {
            let date = year + date_part(tdat[k as int]);
            if t < time.len() {
                let stamp = if byte_len(time[t as int]) >= 4 {
                    date + time_part(time[t as int])
                } else {
                    date
                };
                seq![stamp] + tdrc_stamps(tyer, tdat, time, k + 1, t + 1)
            } else {
                seq![date] + tdrc_stamps(tyer, tdat, time, k + 1, t)
            }
        } else {
            seq![year] + tdrc_stamps(tyer, tdat, time, k + 1, t)
        }
    }
}

/// Whether the `TDAT` and `TIME` strings that [`tdrc_stamps`](tdrc_stamps) uses can be cut
/// where it cuts them.
pub open spec fn tdrc_cuts_cleanly(tyer: Seq<Seq<char>>, tdat: Seq<Seq<char>>, time: Seq<Seq<char>>, k: nat, t: nat) -> bool
    decreases tyer.len() - k,
{
    if k >= tyer.len() {
        true
    } else if k < tdat.len() && byte_len(tdat[k as int]) >= 4 {
        &&& cuts_cleanly(tdat[k as int])
        &&& if t < time.len() {
            cuts_cleanly(time[t as int]) && tdrc_cuts_cleanly(tyer, tdat, time, k + 1, t + 1)
        } else {
            tdrc_cuts_cleanly(tyer, tdat, time, k + 1, t)
        }
    } else {
        tdrc_cuts_cleanly(tyer, tdat, time, k + 1, t)
    }
}

/// The bytes `from` up to `to` of a string that can be cut there are valid UTF-8.
proof fn lemma_part_valid(s: Seq<char>, to: int)
    requires
        cuts_cleanly(s),
        byte_len(s) >= 4,
        to == 2 || to == 4,
    ensures
        valid_utf8(encode_utf8(s).subrange(to - 2, to)),
{
    let b = encode_utf8(s);
    vstd::utf8::encode_utf8_valid_utf8(s);
    if to == 2 {
        vstd::utf8::valid_utf8_split(b, 2);
        assert(b.subrange(0, 2) == b.subrange(to - 2, to));
    } else {
        vstd::utf8::valid_utf8_split(b, 4);
        let head = b.subrange(0, 4);
        vstd::utf8::valid_utf8_split(b, 2);
        vstd::utf8::is_char_boundary_iff_not_is_continuation_byte(b, 2);
        vstd::utf8::is_char_boundary_iff_not_is_continuation_byte(head, 2);
        assert(head[2] == b[2]);
        vstd::utf8::valid_utf8_split(head, 2);
        assert(head.subrange(2, 4) =~= b.subrange(2, 4));
    }
}

/// Appends the characters of bytes `to - 2` up to `to` of `s` to `out`.
fn push_part(out: &mut String, s: &str, to: usize)
    requires
        cuts_cleanly(s@),
        byte_len(s@) >= 4,
        to == 2 || to == 4,
    ensures
        final(out)@ == old(out)@ + byte_part(s@, to - 2, to as int),
{
    let bytes = s.as_bytes();
    let pair: Vec<u8> = vec![bytes[to - 2], bytes[to - 1]];
    proof {
        lemma_part_valid(s@, to as int);
        assert(pair@ =~= encode_utf8(s@).subrange(to - 2, to as int));
    }
    let part = crate::string::utf8_lossy(pair.as_slice());
    let chars = chars_of(part.as_str());
    push_str_chars(out, chars.as_slice(), 0, chars.len());
    proof {
        assert(chars@.subrange(0, chars.len() as int) =~= chars@);
    }
}

/// The number of bytes of the UTF-8 form of `s`.
fn byte_count(s: &str) -> (r: usize)
    ensures
        r == byte_len(s@),
{
    s.as_bytes().len()
}

/// Whether `s` can be cut after its second and fourth byte, where it has four bytes or more.
fn cuts_cleanly_exec(s: &str) -> (r: bool)
    ensures
        r == cuts_cleanly(s@),
{
    proof {
        assert(s.spec_bytes() == encode_utf8(s@));
    }
    byte_count(s) < 4 || (s.is_char_boundary(2) && s.is_char_boundary(4))
}

/// Appends `-MM-dd` from the `TDAT` string `mmdd` to `out`.
fn push_date(out: &mut String, mmdd: &str)
    requires
        cuts_cleanly(mmdd@),
        byte_len(mmdd@) >= 4,
    ensures
        final(out)@ == old(out)@ + date_part(mmdd@),
{
    push_char(out, '-');
    push_part(out, mmdd, 2);
    push_char(out, '-');
    push_part(out, mmdd, 4);
    proof {
        assert(final(out)@ =~= old(out)@ + date_part(mmdd@));
    }
}

/// Appends `THH:mm` from the `TIME` string `hhmm` to `out`.
fn push_time(out: &mut String, hhmm: &str)
    requires
        cuts_cleanly(hhmm@),
        byte_len(hhmm@) >= 4,
    ensures
        final(out)@ == old(out)@ + time_part(hhmm@),
{
    push_char(out, 'T');
    push_part(out, hhmm, 2);
    push_char(out, ':');
    push_part(out, hhmm, 4);
    proof {
        assert(final(out)@ =~= old(out)@ + time_part(hhmm@));
    }
}

/// Returns whether the `TDAT` and `TIME` strings that making timestamps of `tyer`, `tdat` and
/// `time` uses can be cut where it cuts them.
pub fn dates_cut_cleanly(tyer: &[String], tdat: &[String], time: &[String]) -> (r: bool)
    ensures
        r == tdrc_cuts_cleanly(strings_view(tyer@), strings_view(tdat@), strings_view(time@), 0, 0),
{
    let ghost (y, d, m) = (strings_view(tyer@), strings_view(tdat@), strings_view(time@));
    let mut k: usize = 0;
    let mut t: usize = 0;
    while k < tyer.len()
        invariant
            y == strings_view(tyer@),
            d == strings_view(tdat@),
            m == strings_view(time@),
            k <= tyer.len(),
            t <= time.len(),
            tdrc_cuts_cleanly(y, d, m, 0, 0) == tdrc_cuts_cleanly(y, d, m, k as nat, t as nat),
        decreases tyer.len() - k,
    {
        proof {
            assert(k < tdat.len() ==> d[k as int] == tdat@[k as int]@);
            assert(t < time.len() ==> m[t as int] == time@[t as int]@);
        }
        if k < tdat.len() && byte_count(tdat[k].as_str()) >= 4 {
            if !cuts_cleanly_exec(tdat[k].as_str()) {
                return false;
            }
            if t < time.len() {
                if !cuts_cleanly_exec(time[t].as_str()) {
                    return false;
                }
                t = t + 1;
            }
        }
        k = k + 1;
    }
    true
}

/// Makes timestamps of the `TYER`, `TDAT` and `TIME` strings `tyer`, `tdat` and `time`, as
/// [`tdrc_stamps`](tdrc_stamps) describes.
pub fn tdrc_from_dates(tyer: &[String], tdat: &[String], time: &[String]) -> (r: Vec<String>)
    requires
        tdrc_cuts_cleanly(strings_view(tyer@), strings_view(tdat@), strings_view(time@), 0, 0),
    ensures
        strings_view(r@) == tdrc_stamps(strings_view(tyer@), strings_view(tdat@), strings_view(time@), 0, 0),
{
    let ghost (y, d, m) = (strings_view(tyer@), strings_view(tdat@), strings_view(time@));
    let mut r: Vec<String> = Vec::new();
    let mut k: usize = 0;
    let mut t: usize = 0;
    while k < tyer.len()
        invariant
            y == strings_view(tyer@),
            d == strings_view(tdat@),
            m == strings_view(time@),
            k <= tyer.len(),
            t <= time.len(),
            tdrc_cuts_cleanly(y, d, m, k as nat, t as nat),
            strings_view(r@) + tdrc_stamps(y, d, m, k as nat, t as nat) == tdrc_stamps(y, d, m, 0, 0),
        decreases tyer.len() - k,
    {
        let ghost (k0, t0) = (k as nat, t as nat);
        proof {
            assert(y[k as int] == tyer@[k as int]@);
            assert(k < tdat.len() ==> d[k as int] == tdat@[k as int]@);
            assert(t < time.len() ==> m[t as int] == time@[t as int]@);
        }
        let mut stamp = pad_year(tyer[k].as_str());
        if k < tdat.len() && byte_count(tdat[k].as_str()) >= 4 {
            push_date(&mut stamp, tdat[k].as_str());
            if t < time.len() {
                if byte_count(time[t].as_str()) >= 4 {
                    push_time(&mut stamp, time[t].as_str());
                }
                t = t + 1;
            }
        }
        let ghost before = r@;
        r.push(stamp);
        k = k + 1;
        proof {
            assert(tdrc_stamps(y, d, m, k0, t0) == seq![stamp@] + tdrc_stamps(y, d, m, k as nat, t as nat));
            assert(strings_view(r@) =~= strings_view(before).push(stamp@));
            assert(strings_view(r@) + tdrc_stamps(y, d, m, k as nat, t as nat) =~= strings_view(before) + tdrc_stamps(
                y,
                d,
                m,
                k0,
                t0,
            ));
        }
    }
    proof {
        assert(strings_view(r@) =~= strings_view(r@) + tdrc_stamps(y, d, m, k as nat, t as nat));
    }
    r
}

/// Whether `c` is an ASCII digit.
pub open spec fn is_digit(c: char) -> bool {
    ('0' as int) <= (c as int) <= ('9' as int)
}

/// The end of the run of digits in `s` that starts at `pos`.
pub open spec fn digits_end(s: Seq<char>, pos: int) -> int
    decreases s.len() - pos,
{
    if pos >= s.len() || pos < 0 || !is_digit(s[pos]) {
        pos
    } else {
        digits_end(s, pos + 1)
    }
}

/// What reading a field of a timestamp ended by `sep` from position `pos` of `s` gives: the
/// digits, where the field ends with `sep` or the end of `s`, and the position after the
/// character that ended the field.
pub open spec fn read_field(s: Seq<char>, pos: int, sep: char) -> (Option<Seq<char>>, int) {
    let e = digits_end(s, pos);
    if e >= s.len() {
        (Some(s.subrange(pos, e)), e)
    } else if s[e] == sep {
        (Some(s.subrange(pos, e)), e + 1)
    } else {
        (None, e + 1)
    }
}

/// Whether a field read is two digits.
pub open spec fn two_digits(f: Option<Seq<char>>) -> bool {
    f matches Some(x) && x.len() == 2
}

/// The `TYER`, `TDAT` and `TIME` strings of the timestamp `s`: the year, where it is not empty;
/// then `MMDD`, the month and then the day, two digits each; then `HHMM`, where the hour and
/// minute are two digits each.
pub open spec fn stamp_fields(s: Seq<char>) -> (Option<Seq<char>>, Option<Seq<char>>, Option<Seq<char>>) {
    let (y, p1) = read_field(s, 0, '-');
    if !(y matches Some(yy) && yy.len() > 0) {
        (None, None, None)
    } else {
        let year = Some(pad4(y->0));
        let (mo, p2) = read_field(s, p1, '-');
        let (dd, p3) = read_field(s, p2, 'T');
        if !(two_digits(mo) && two_digits(dd)) {
            (year, None, None)
        } else {
            let date = Some(mo->0 + dd->0);
            let (hh, p4) = read_field(s, p3, ':');
            let (mi, p5) = read_field(s, p4, ':');
            if two_digits(hh) && two_digits(mi) {
                (year, date, Some(hh->0 + mi->0))
            } else {
                (year, date, None)
            }
        }
    }
}

/// `s` followed by what `o` holds, if anything.
pub open spec fn push_some(s: Seq<Seq<char>>, o: Option<Seq<char>>) -> Seq<Seq<char>> {
    match o {
        Some(x) => s.push(x),
        None => s,
    }
}

/// The `TYER`, `TDAT` and `TIME` strings of the timestamps `stamps`, in their order.
pub open spec fn dates_of_stamps(stamps: Seq<Seq<char>>) -> (Seq<Seq<char>>, Seq<Seq<char>>, Seq<Seq<char>>)
    decreases stamps.len(),
{
    if stamps.len() == 0 {
        (Seq::empty(), Seq::empty(), Seq::empty())
    } else {
        let (a, b, c) = dates_of_stamps(stamps.drop_last());
        let f = stamp_fields(stamps.last());
        (push_some(a, f.0), push_some(b, f.1), push_some(c, f.2))
    }
}

// ---- Timestamps that survive a round trip ----

/// Whether every character of `s` is an ASCII digit.
pub open spec fn all_digits(s: Seq<char>) -> bool {
    forall|i: int| 0 <= i < s.len() ==> is_digit(#[trigger] s[i])
}

/// The run of digits from `pos` ends at `pos + n` when `n` digits follow, then the end or
/// something other than a digit.
proof fn lemma_digits_end(s: Seq<char>, pos: int, n: int)
    requires
        0 <= pos,
        0 <= n,
        pos + n <= s.len(),
        forall|i: int| pos <= i < pos + n ==> is_digit(#[trigger] s[i]),
        pos + n == s.len() || !is_digit(s[pos + n]),
    ensures
        digits_end(s, pos) == pos + n,
    decreases n,
{
    if n > 0 {
        assert(is_digit(s[pos]));
        lemma_digits_end(s, pos + 1, n - 1);
    }
}

/// The UTF-8 form of ASCII text has one byte for each character, of the same value.
proof fn lemma_ascii_utf8(s: Seq<char>)
    requires
        forall|i: int| 0 <= i < s.len() ==> (#[trigger] s[i]) as u32 <= 0x7F,
    ensures
        encode_utf8(s).len() == s.len(),
        forall|i: int| 0 <= i < s.len() ==> #[trigger] encode_utf8(s)[i] == (s[i] as u32) as u8,
    decreases s.len(),
{
    if s.len() > 0 {
        let rest = s.drop_first();
        assert forall|i: int| 0 <= i < rest.len() implies (#[trigger] rest[i]) as u32 <= 0x7F by {
            assert(rest[i] == s[i + 1]);
        }
        lemma_ascii_utf8(rest);
        let v = s[0] as u32;
        assert(v <= 0x7F ==> (v & 0x7F) as u8 == v as u8) by (bit_vector);
        assert forall|i: int| 0 <= i < s.len() implies #[trigger] encode_utf8(s)[i] == (
        s[i] as u32) as u8 by {
            if i > 0 {
                assert(rest[i - 1] == s[i]);
            }
        }
    }
}

/// Cutting the UTF-8 form of ASCII text anywhere gives back the characters in between, and
/// it can be cut at its second and fourth byte.
proof fn lemma_ascii_parts(s: Seq<char>, from: int, to: int)
    requires
        forall|i: int| 0 <= i < s.len() ==> (#[trigger] s[i]) as u32 <= 0x7F,
        0 <= from <= to <= s.len(),
    ensures
        byte_len(s) == s.len(),
        byte_part(s, from, to) == s.subrange(from, to),
        cuts_cleanly(s),
{
    let t = s.subrange(from, to);
    lemma_ascii_utf8(s);
    assert forall|i: int| 0 <= i < t.len() implies (#[trigger] t[i]) as u32 <= 0x7F by {
        assert(t[i] == s[from + i]);
    }
    lemma_ascii_utf8(t);
    let e = encode_utf8(s);
    assert(e.subrange(from, to) =~= encode_utf8(t));
    vstd::utf8::encode_utf8_decode_utf8(t);
    vstd::utf8::encode_utf8_valid_utf8(s);
    if s.len() >= 4 {
        vstd::utf8::is_char_boundary_iff_not_is_continuation_byte(e, 2);
        if s.len() == 4 {
            vstd::utf8::is_char_boundary_start_end_of_seq(e);
        } else {
            vstd::utf8::is_char_boundary_iff_not_is_continuation_byte(e, 4);
        }
    }
}

/// Digits are ASCII.
proof fn lemma_digits_ascii(s: Seq<char>)
    requires
        all_digits(s),
    ensures
        forall|i: int| 0 <= i < s.len() ==> (#[trigger] s[i]) as u32 <= 0x7F,
{
    assert forall|i: int| 0 <= i < s.len() implies (#[trigger] s[i]) as u32 <= 0x7F by {
        assert(is_digit(s[i]));
    }
}

/// The timestamp of `year`, `month` and `day`, and of the hour and minute of `time` where
/// there are any, written as `YYYY-MM-DD` or `YYYY-MM-DDTHH:mm`.
pub open spec fn stamp_of(year: Seq<char>, month: Seq<char>, day: Seq<char>, time: Option<(Seq<char>, Seq<char>)>) -> Seq<char> {
    let date = year + seq!['-'] + month + seq!['-'] + day;
    match time {
        Some((h, m)) => date + seq!['T'] + h + seq![':'] + m,
        None => date,
    }
}

/// Two pairs of digits are four ASCII bytes, which can be cut after the second and give the
/// pairs back.
proof fn lemma_digit_pairs(a: Seq<char>, b: Seq<char>)
    requires
        a.len() == 2,
        b.len() == 2,
        all_digits(a),
        all_digits(b),
    ensures
        byte_len(a + b) == 4,
        cuts_cleanly(a + b),
        byte_part(a + b, 0, 2) == a,
        byte_part(a + b, 2, 4) == b,
{
    let ab = a + b;
    lemma_digits_ascii(a);
    lemma_digits_ascii(b);
    assert forall|i: int| 0 <= i < ab.len() implies (#[trigger] ab[i]) as u32 <= 0x7F by {
        if i < 2 {
            assert(ab[i] == a[i]);
        } else {
            assert(ab[i] == b[i - 2]);
        }
    }
    lemma_ascii_parts(ab, 0, 2);
    lemma_ascii_parts(ab, 2, 4);
    assert(ab.subrange(0, 2) =~= a);
    assert(ab.subrange(2, 4) =~= b);
}

/// The fields of a timestamp read from `pos` on: `n` digits, then `sep` or the end.
proof fn lemma_field_at(s: Seq<char>, pos: int, n: int, sep: char, field: Seq<char>)
    requires
        0 <= pos,
        0 <= n,
        pos + n <= s.len(),
        field.len() == n,
        all_digits(field),
        forall|i: int| 0 <= i < n ==> s[pos + i] == field[i],
        pos + n == s.len() || s[pos + n] == sep,
        !is_digit(sep),
    ensures
        read_field(s, pos, sep) == (Some(field), pos + n + if pos + n == s.len() { 0int } else { 1int }),
{
    assert forall|i: int| pos <= i < pos + n implies is_digit(#[trigger] s[i]) by {
        assert(s[pos + (i - pos)] == field[i - pos]);
    }
    lemma_digits_end(s, pos, n);
    assert(s.subrange(pos, pos + n) =~= field);
}

/// The `TYER`, `TDAT` and `TIME` strings of a timestamp written by
/// [`stamp_of`](stamp_of).
proof fn lemma_stamp_fields(year: Seq<char>, month: Seq<char>, day: Seq<char>, time: Option<(Seq<char>, Seq<char>)>)
    requires
        year.len() >= 4,
        month.len() == 2,
        day.len() == 2,
        all_digits(year),
        all_digits(month),
        all_digits(day),
        time matches Some((h, m)) ==> h.len() == 2 && m.len() == 2 && all_digits(h) && all_digits(m),
    ensures
        stamp_fields(stamp_of(year, month, day, time)) == (
            Some(year),
            Some(month + day),
            match time {
                Some((h, m)) => Some(h + m),
                None => None::<Seq<char>>,
            },
        ),
{
    let s = stamp_of(year, month, day, time);
    let n = year.len() as int;
    let date = year + seq!['-'] + month + seq!['-'] + day;
    assert(!is_digit('-') && !is_digit('T') && !is_digit(':'));
    assert forall|i: int| 0 <= i < n + 6 implies s[i] == date[i] by {}
    assert forall|i: int| 0 <= i < n implies s[0 + i] == year[i] by {
        assert(s[i] == date[i]);
    }
    assert(s[n] == '-') by {
        assert(s[n] == date[n]);
    }
    lemma_field_at(s, 0, n, '-', year);
    assert forall|i: int| 0 <= i < 2 implies s[n + 1 + i] == month[i] by {
        assert(s[n + 1 + i] == date[n + 1 + i]);
    }
    assert(s[n + 3] == '-') by {
        assert(s[n + 3] == date[n + 3]);
    }
    lemma_field_at(s, n + 1, 2, '-', month);
    assert forall|i: int| 0 <= i < 2 implies s[n + 4 + i] == day[i] by {
        assert(s[n + 4 + i] == date[n + 4 + i]);
    }
    match time {
        Some((h, m)) => {
            assert(s.len() == n + 12);
            assert(s[n + 6] == 'T');
            lemma_field_at(s, n + 4, 2, 'T', day);
            assert(s[n + 9] == ':');
            assert forall|i: int| 0 <= i < 2 implies s[n + 7 + i] == h[i] by {}
            lemma_field_at(s, n + 7, 2, ':', h);
            assert forall|i: int| 0 <= i < 2 implies s[n + 10 + i] == m[i] by {}
            lemma_field_at(s, n + 10, 2, ':', m);
        },
        None => {
            assert(s.len() == n + 6);
            lemma_field_at(s, n + 4, 2, 'T', day);
            assert(digits_end(s, n + 6) == n + 6);
        },
    }
}

/// Splitting one timestamp gives its fields, where it has them.
proof fn lemma_dates_of_one_stamp(s: Seq<char>)
    ensures
        dates_of_stamps(seq![s]) == (
            push_some(Seq::empty(), stamp_fields(s).0),
            push_some(Seq::empty(), stamp_fields(s).1),
            push_some(Seq::empty(), stamp_fields(s).2),
        ),
{
    let e = Seq::<Seq<char>>::empty();
    assert(dates_of_stamps(e) == (e, e, e));
    assert(seq![s].drop_last() =~= e);
    assert(seq![s].last() == s);
}

/// Dates survive a round trip through ID3v2.3: a timestamp with a year of four digits or more,
/// a month and a day of two digits each, and possibly an hour and a minute of two digits each,
/// is split into a `TYER` string of the year, a `TDAT` string of the month and then the day,
/// and a `TIME` string of the hour and minute where there are any; these can be cut where
/// the upgrade cuts them, and the upgrade joins them into the same timestamp.
pub proof fn lemma_stamp_round_trip(year: Seq<char>, month: Seq<char>, day: Seq<char>, time: Option<(Seq<char>, Seq<char>)>)
    requires
        year.len() >= 4,
        month.len() == 2,
        day.len() == 2,
        all_digits(year),
        all_digits(month),
        all_digits(day),
        time matches Some((h, m)) ==> h.len() == 2 && m.len() == 2 && all_digits(h) && all_digits(m),
    ensures
        ({
            let (tyer, tdat, times) = dates_of_stamps(seq![stamp_of(year, month, day, time)]);
            &&& tyer == seq![year]
            &&& tdat == seq![month + day]
            &&& times == match time {
                Some((h, m)) => seq![h + m],
                None => Seq::<Seq<char>>::empty(),
            }
            &&& tdrc_cuts_cleanly(tyer, tdat, times, 0, 0)
            &&& tdrc_stamps(tyer, tdat, times, 0, 0) == seq![stamp_of(year, month, day, time)]
        }),
{
    let s = stamp_of(year, month, day, time);
    let md = month + day;
    let e = Seq::<Seq<char>>::empty();
    lemma_stamp_fields(year, month, day, time);
    lemma_dates_of_one_stamp(s);
    lemma_digit_pairs(month, day);
    let date = year + date_part(md);
    assert(date =~= year + seq!['-'] + month + seq!['-'] + day);
    assert(e.push(year) =~= seq![year]);
    assert(e.push(md) =~= seq![md]);
    match time {
        Some((h, m)) => {
            let hm = h + m;
            lemma_digit_pairs(h, m);
            assert(e.push(hm) =~= seq![hm]);
            let times = seq![hm];
            assert(date + time_part(hm) =~= s);
            assert(tdrc_stamps(seq![year], seq![md], times, 1, 1) == e);
            assert(tdrc_cuts_cleanly(seq![year], seq![md], times, 1, 1));
            assert(tdrc_stamps(seq![year], seq![md], times, 0, 0) =~= seq![s]);
        },
        None => {
            assert(date =~= s);
            assert(tdrc_stamps(seq![year], seq![md], e, 1, 0) == e);
            assert(tdrc_cuts_cleanly(seq![year], seq![md], e, 1, 0));
            assert(tdrc_stamps(seq![year], seq![md], e, 0, 0) =~= seq![s]);
        },
    }
}

/// Reads a field of a timestamp ended by `sep` from position `pos` of `chars`. Returns
/// whether the field is well formed, the end of its digits and the position after it.
fn read_field_at(chars: &[char], pos: usize, sep: char) -> (r: (bool, usize, usize))
    requires
        pos <= chars@.len(),
    ensures
        r.0 == (read_field(chars@, pos as int, sep).0 is Some),
        r.1 == digits_end(chars@, pos as int),
        r.2 == read_field(chars@, pos as int, sep).1,
        pos <= r.1 <= chars@.len(),
        r.2 <= chars@.len(),
        r.0 ==> read_field(chars@, pos as int, sep).0 == Some(chars@.subrange(pos as int, r.1 as int)),
{
    let mut e: usize = pos;
    while e < chars.len() && '0' <= chars[e] && chars[e] <= '9'
        invariant
            pos <= e <= chars@.len(),
            digits_end(chars@, pos as int) == digits_end(chars@, e as int),
        decreases chars.len() - e,
    {
        e = e + 1;
    }
    if e >= chars.len() {
        (true, e, e)
    } else if chars[e] == sep {
        (true, e, e + 1)
    } else {
        (false, e, e + 1)
    }
}

/// Builds the string of the characters of `chars` from `start` up to `end`.
fn string_of(chars: &[char], start: usize, end: usize) -> (r: String)
    requires
        start <= end <= chars@.len(),
    ensures
        r@ == chars@.subrange(start as int, end as int),
{
    let mut r = String::new();
    push_str_chars(&mut r, chars, start, end);
    proof {
        assert(r@ =~= chars@.subrange(start as int, end as int));
    }
    r
}

/// Splits the timestamp `stamp` into its `TYER`, `TDAT` and `TIME` strings, as
/// [`stamp_fields`](stamp_fields) describes.
pub fn split_stamp(stamp: &str) -> (r: (Option<String>, Option<String>, Option<String>))
    ensures
        ({
            let f = stamp_fields(stamp@);
            &&& r.0 matches Some(x) ==> f.0 == Some(x@)
            &&& r.0 is None ==> f.0 is None
            &&& r.1 matches Some(x) ==> f.1 == Some(x@)
            &&& r.1 is None ==> f.1 is None
            &&& r.2 matches Some(x) ==> f.2 == Some(x@)
            &&& r.2 is None ==> f.2 is None
        }),
{
    let chars = chars_of(stamp);
    let ghost s = chars@;
    let (ok, e1, p1) = read_field_at(chars.as_slice(), 0, '-');
    if !ok || e1 == 0 {
        return (None, None, None);
    }
    let digits = string_of(chars.as_slice(), 0, e1);
    let year = pad_year(digits.as_str());
    let (ok_mo, e2, p2) = read_field_at(chars.as_slice(), p1, '-');
    let (ok_dd, e3, p3) = read_field_at(chars.as_slice(), p2, 'T');
    if !(ok_mo && e2 - p1 == 2 && ok_dd && e3 - p2 == 2) {
        return (Some(year), None, None);
    }
    let mut date = string_of(chars.as_slice(), p1, e2);
    push_str_chars(&mut date, chars.as_slice(), p2, e3);
    let (ok_hh, e4, p4) = read_field_at(chars.as_slice(), p3, ':');
    let (ok_mi, e5, p5) = read_field_at(chars.as_slice(), p4, ':');
    if !(ok_hh && e4 - p3 == 2 && ok_mi && e5 - p4 == 2) {
        return (Some(year), Some(date), None);
    }
    let mut time = string_of(chars.as_slice(), p3, e4);
    push_str_chars(&mut time, chars.as_slice(), p4, e5);
    (Some(year), Some(date), Some(time))
}

/// Splits the timestamps `stamps` into `TYER`, `TDAT` and `TIME` strings, as
/// [`dates_of_stamps`](dates_of_stamps) describes.
pub fn dates_from_tdrc(stamps: &[String]) -> (r: (Vec<String>, Vec<String>, Vec<String>))
    ensures
        dates_of_stamps(strings_view(stamps@)) == (strings_view(r.0@), strings_view(r.1@), strings_view(r.2@)),
{
    let mut tyer: Vec<String> = Vec::new();
    let mut tdat: Vec<String> = Vec::new();
    let mut time: Vec<String> = Vec::new();
    let mut i: usize = 0;
    while i < stamps.len()
        invariant
            i <= stamps@.len(),
            dates_of_stamps(strings_view(stamps@.take(i as int))) == (strings_view(tyer@), strings_view(tdat@), strings_view(time@)),
        decreases stamps.len() - i,
    {
        let (y, d, t) = split_stamp(stamps[i].as_str());
        let ghost before = (tyer@, tdat@, time@);
        let ghost f = stamp_fields(stamps@[i as int]@);
        match y {
            Some(x) => tyer.push(x),
            None => {},
        }
        match d {
            Some(x) => tdat.push(x),
            None => {},
        }
        match t {
            Some(x) => time.push(x),
            None => {},
        }
        proof {
            assert(strings_view(stamps@.take(i + 1)).drop_last() =~= strings_view(stamps@.take(i as int)));
            assert(strings_view(stamps@.take(i + 1)).last() == stamps@[i as int]@);
            assert(strings_view(tyer@) =~= push_some(strings_view(before.0), f.0));
            assert(strings_view(tdat@) =~= push_some(strings_view(before.1), f.1));
            assert(strings_view(time@) =~= push_some(strings_view(before.2), f.2));
        }
        i = i + 1;
    }
    proof {
        assert(stamps@.take(i as int) =~= stamps@);
    }
    (tyer, tdat, time)
}

// ---- Frame IDs ----

/// The Frame ID `TYER`.
pub open spec fn id_tyer() -> Seq<u8> {
    seq![0x54u8, 0x59, 0x45, 0x52]
}

/// The Frame ID `TYER`, to be used.
fn tyer_bytes() -> (r: [u8; 4])
    ensures
        r@ == id_tyer(),
        valid_frame_id(r@),
        is_text_id(id_code(r@)),
{
    let r: [u8; 4] = [0x54, 0x59, 0x45, 0x52];
    proof {
        assert(r@ =~= id_tyer());
        assert(valid_frame_id(r@)) by {
            assert forall|i: int| 0 <= i < 4 implies crate::id3v2::frames::is_id_byte(#[trigger] r@[i]) by {}
        }
    }
    r
}

/// The Frame ID `TDAT`.
pub open spec fn id_tdat() -> Seq<u8> {
    seq![0x54u8, 0x44, 0x41, 0x54]
}

/// The Frame ID `TDAT`, to be used.
fn tdat_bytes() -> (r: [u8; 4])
    ensures
        r@ == id_tdat(),
        valid_frame_id(r@),
        is_text_id(id_code(r@)),
{
    let r: [u8; 4] = [0x54, 0x44, 0x41, 0x54];
    proof {
        assert(r@ =~= id_tdat());
        assert(valid_frame_id(r@)) by {
            assert forall|i: int| 0 <= i < 4 implies crate::id3v2::frames::is_id_byte(#[trigger] r@[i]) by {}
        }
    }
    r
}

/// The Frame ID `TIME`.
pub open spec fn id_time() -> Seq<u8> {
    seq![0x54u8, 0x49, 0x4D, 0x45]
}

/// The Frame ID `TIME`, to be used.
fn time_bytes() -> (r: [u8; 4])
    ensures
        r@ == id_time(),
        valid_frame_id(r@),
        is_text_id(id_code(r@)),
{
    let r: [u8; 4] = [0x54, 0x49, 0x4D, 0x45];
    proof {
        assert(r@ =~= id_time());
        assert(valid_frame_id(r@)) by {
            assert forall|i: int| 0 <= i < 4 implies crate::id3v2::frames::is_id_byte(#[trigger] r@[i]) by {}
        }
    }
    r
}

/// The Frame ID `TDRC`.
pub open spec fn id_tdrc() -> Seq<u8> {
    seq![0x54u8, 0x44, 0x52, 0x43]
}

/// The Frame ID `TDRC`, to be used.
fn tdrc_bytes() -> (r: [u8; 4])
    ensures
        r@ == id_tdrc(),
        valid_frame_id(r@),
        is_text_id(id_code(r@)),
{
    let r: [u8; 4] = [0x54, 0x44, 0x52, 0x43];
    proof {
        assert(r@ =~= id_tdrc());
        assert(valid_frame_id(r@)) by {
            assert forall|i: int| 0 <= i < 4 implies crate::id3v2::frames::is_id_byte(#[trigger] r@[i]) by {}
        }
    }
    r
}

/// The Frame ID `TORY`.
pub open spec fn id_tory() -> Seq<u8> {
    seq![0x54u8, 0x4F, 0x52, 0x59]
}

/// The Frame ID `TORY`, to be used.
fn tory_bytes() -> (r: [u8; 4])
    ensures
        r@ == id_tory(),
        valid_frame_id(r@),
        is_text_id(id_code(r@)),
{
    let r: [u8; 4] = [0x54, 0x4F, 0x52, 0x59];
    proof {
        assert(r@ =~= id_tory());
        assert(valid_frame_id(r@)) by {
            assert forall|i: int| 0 <= i < 4 implies crate::id3v2::frames::is_id_byte(#[trigger] r@[i]) by {}
        }
    }
    r
}

/// The Frame ID `TDOR`.
pub open spec fn id_tdor() -> Seq<u8> {
    seq![0x54u8, 0x44, 0x4F, 0x52]
}

/// The Frame ID `TDOR`, to be used.
fn tdor_bytes() -> (r: [u8; 4])
    ensures
        r@ == id_tdor(),
        valid_frame_id(r@),
        is_text_id(id_code(r@)),
{
    let r: [u8; 4] = [0x54, 0x44, 0x4F, 0x52];
    proof {
        assert(r@ =~= id_tdor());
        assert(valid_frame_id(r@)) by {
            assert forall|i: int| 0 <= i < 4 implies crate::id3v2::frames::is_id_byte(#[trigger] r@[i]) by {}
        }
    }
    r
}

/// The Frame IDs that have no ID3v2.3 analogue: `EQU2`, `RVA2`, `ASPI`, `SEEK`, `SIGN`, `TDEN`, `TDRL`, `TDTG`, `TMOO`, `TPRO`, `TSST`, `TSOA`, `TSOP`, `TSOT`.
pub open spec fn v3_dropped_ids() -> Seq<Seq<u8>> {
    seq![seq![0x45u8, 0x51, 0x55, 0x32], seq![0x52u8, 0x56, 0x41, 0x32], seq![0x41u8, 0x53, 0x50, 0x49], seq![0x53u8, 0x45, 0x45, 0x4B], seq![0x53u8, 0x49, 0x47, 0x4E], seq![0x54u8, 0x44, 0x45, 0x4E], seq![0x54u8, 0x44, 0x52, 0x4C], seq![0x54u8, 0x44, 0x54, 0x47], seq![0x54u8, 0x4D, 0x4F, 0x4F], seq![0x54u8, 0x50, 0x52, 0x4F], seq![0x54u8, 0x53, 0x53, 0x54], seq![0x54u8, 0x53, 0x4F, 0x41], seq![0x54u8, 0x53, 0x4F, 0x50], seq![0x54u8, 0x53, 0x4F, 0x54]]
}

/// The Frame IDs that have no ID3v2.4 analogue: `EQUA`, `RVAD`, `TSIZ`, `TRDA`.
pub open spec fn v4_dropped_ids() -> Seq<Seq<u8>> {
    seq![seq![0x45u8, 0x51, 0x55, 0x41], seq![0x52u8, 0x56, 0x41, 0x44], seq![0x54u8, 0x53, 0x49, 0x5A], seq![0x54u8, 0x52, 0x44, 0x41]]
}

// ---- Frame IDs of each version ----

/// Whether `c` is the code of a frame ID that the ID3v2.3 standard defines.
pub open spec fn v3_frame_code(c: u32) -> bool {
    c == 0x41454E43 || c == 0x41504943 || c == 0x434F4D4D || c == 0x434F4D52
    || c == 0x454E4352 || c == 0x45515541 || c == 0x4554434F || c == 0x47454F42
    || c == 0x47524944 || c == 0x49504C53 || c == 0x4C494E4B || c == 0x4D434449
    || c == 0x4D4C4C54 || c == 0x4F574E45 || c == 0x50524956 || c == 0x50434E54
    || c == 0x504F504D || c == 0x504F5353 || c == 0x52425546 || c == 0x52564144
    || c == 0x52565242 || c == 0x53594C54 || c == 0x53595443 || c == 0x54414C42
    || c == 0x5442504D || c == 0x54434F4D || c == 0x54434F4E || c == 0x54434F50
    || c == 0x54444154 || c == 0x54444C59 || c == 0x54454E43 || c == 0x54455854
    || c == 0x54464C54 || c == 0x54494D45 || c == 0x54495431 || c == 0x54495432
    || c == 0x54495433 || c == 0x544B4559 || c == 0x544C414E || c == 0x544C454E
    || c == 0x544D4544 || c == 0x544F414C || c == 0x544F464E || c == 0x544F4C59
    || c == 0x544F5045 || c == 0x544F5259 || c == 0x544F574E || c == 0x54504531
    || c == 0x54504532 || c == 0x54504533 || c == 0x54504534 || c == 0x54504F53
    || c == 0x54505542 || c == 0x5452434B || c == 0x54524441 || c == 0x5452534E
    || c == 0x5452534F || c == 0x5453495A || c == 0x54535243 || c == 0x54535345
    || c == 0x54594552 || c == 0x54585858 || c == 0x55464944 || c == 0x55534552
    || c == 0x55534C54 || c == 0x57434F4D || c == 0x57434F50 || c == 0x574F4146
    || c == 0x574F4152 || c == 0x574F4153 || c == 0x574F5253 || c == 0x57504159
    || c == 0x57505542 || c == 0x57585858
}

/// Whether `c` is the code of a frame ID that the ID3v2.4 standard defines.
pub open spec fn v4_frame_code(c: u32) -> bool {
    c == 0x41454E43 || c == 0x41504943 || c == 0x41535049 || c == 0x434F4D4D
    || c == 0x434F4D52 || c == 0x454E4352 || c == 0x45515532 || c == 0x4554434F
    || c == 0x47454F42 || c == 0x47524944 || c == 0x4C494E4B || c == 0x4D434449
    || c == 0x4D4C4C54 || c == 0x4F574E45 || c == 0x50524956 || c == 0x50434E54
    || c == 0x504F504D || c == 0x504F5353 || c == 0x52425546 || c == 0x52564132
    || c == 0x52565242 || c == 0x5345454B || c == 0x5349474E || c == 0x53594C54
    || c == 0x53595443 || c == 0x54414C42 || c == 0x5442504D || c == 0x54434F4D
    || c == 0x54434F4E || c == 0x54434F50 || c == 0x5444454E || c == 0x54444C59
    || c == 0x54444F52 || c == 0x54445243 || c == 0x5444524C || c == 0x54445447
    || c == 0x54454E43 || c == 0x54455854 || c == 0x54464C54 || c == 0x5449504C
    || c == 0x54495431 || c == 0x54495432 || c == 0x54495433 || c == 0x544B4559
    || c == 0x544C414E || c == 0x544C454E || c == 0x544D434C || c == 0x544D4544
    || c == 0x544D4F4F || c == 0x544F414C || c == 0x544F464E || c == 0x544F4C59
    || c == 0x544F5045 || c == 0x544F574E || c == 0x54504531 || c == 0x54504532
    || c == 0x54504533 || c == 0x54504534 || c == 0x54504F53 || c == 0x5450524F
    || c == 0x54505542 || c == 0x5452434B || c == 0x5452534E || c == 0x5452534F
    || c == 0x54534F41 || c == 0x54534F50 || c == 0x54534F54 || c == 0x54535243
    || c == 0x54535345 || c == 0x54535354 || c == 0x54585858 || c == 0x55464944
    || c == 0x55534552 || c == 0x55534C54 || c == 0x57434F4D || c == 0x57434F50
    || c == 0x574F4146 || c == 0x574F4152 || c == 0x574F4153 || c == 0x574F5253
    || c == 0x57504159 || c == 0x57505542 || c == 0x57585858
}

/// Whether `c` is the code of an ID3v2.4-only frame that a downgrade converts rather than drops: `TDRC`, `TDOR`, `TIPL` and `TMCL`.
pub open spec fn v3_converted_code(c: u32) -> bool {
    c == 0x54445243 || c == 0x54444F52 || c == 0x5449504C || c == 0x544D434C
}

/// Whether `c` is the code of an ID3v2.3-only frame that an upgrade converts rather than drops: `TYER`, `TDAT`, `TIME`, `TORY` and `IPLS`.
pub open spec fn v4_converted_code(c: u32) -> bool {
    c == 0x54594552 || c == 0x54444154 || c == 0x54494D45 || c == 0x544F5259
    || c == 0x49504C53
}

/// Downgrading to ID3v2.3 drops exactly the frames that only ID3v2.4 defines and that it does not convert: every ID it drops is an ID3v2.4 ID that ID3v2.3 lacks, no ID that ID3v2.3 defines (such as `TPE1` or `TIT2`) is dropped, and every ID3v2.4-only ID but the converted ones is dropped.
pub proof fn lemma_v3_dropped_ids_exact()
    ensures
        forall|id: Seq<u8>|
            #[trigger] v3_dropped_ids().contains(id) ==> id.len() == 4 && v4_frame_code(id_code(id))
                && !v3_frame_code(id_code(id)) && !v3_converted_code(id_code(id)),
        forall|id: Seq<u8>|
            id.len() == 4 && #[trigger] v3_frame_code(id_code(id)) ==> !v3_dropped_ids().contains(id),
        forall|c: u32|
            #[trigger] v4_frame_code(c) && !v3_frame_code(c) && !v3_converted_code(c) ==> exists|i: int|
                0 <= i < v3_dropped_ids().len() && id_code(#[trigger] v3_dropped_ids()[i]) == c,
{
    let ids = v3_dropped_ids();
    assert(ids.len() == 14);
    assert(ids[0].len() == 4 && id_code(ids[0]) == 0x45515532);
    assert(ids[1].len() == 4 && id_code(ids[1]) == 0x52564132);
    assert(ids[2].len() == 4 && id_code(ids[2]) == 0x41535049);
    assert(ids[3].len() == 4 && id_code(ids[3]) == 0x5345454B);
    assert(ids[4].len() == 4 && id_code(ids[4]) == 0x5349474E);
    assert(ids[5].len() == 4 && id_code(ids[5]) == 0x5444454E);
    assert(ids[6].len() == 4 && id_code(ids[6]) == 0x5444524C);
    assert(ids[7].len() == 4 && id_code(ids[7]) == 0x54445447);
    assert(ids[8].len() == 4 && id_code(ids[8]) == 0x544D4F4F);
    assert(ids[9].len() == 4 && id_code(ids[9]) == 0x5450524F);
    assert(ids[10].len() == 4 && id_code(ids[10]) == 0x54535354);
    assert(ids[11].len() == 4 && id_code(ids[11]) == 0x54534F41);
    assert(ids[12].len() == 4 && id_code(ids[12]) == 0x54534F50);
    assert(ids[13].len() == 4 && id_code(ids[13]) == 0x54534F54);
    assert forall|i: int| 0 <= i < 14 implies ids[i].len() == 4 && v4_frame_code(id_code(#[trigger] ids[i]))
        && !v3_frame_code(id_code(ids[i])) && !v3_converted_code(id_code(ids[i])) by {
        if i == 0 {
        } else if i == 1 {
        } else if i == 2 {
        } else if i == 3 {
        } else if i == 4 {
        } else if i == 5 {
        } else if i == 6 {
        } else if i == 7 {
        } else if i == 8 {
        } else if i == 9 {
        } else if i == 10 {
        } else if i == 11 {
        } else if i == 12 {
        } else if i == 13 {
        }
    }
    assert forall|c: u32| #[trigger] v4_frame_code(c) && !v3_frame_code(c) && !v3_converted_code(c) implies exists|i: int|
        0 <= i < ids.len() && id_code(#[trigger] ids[i]) == c by {
        if c == 0x45515532 {
            assert(id_code(ids[0]) == c);
        } else if c == 0x52564132 {
            assert(id_code(ids[1]) == c);
        } else if c == 0x41535049 {
            assert(id_code(ids[2]) == c);
        } else if c == 0x5345454B {
            assert(id_code(ids[3]) == c);
        } else if c == 0x5349474E {
            assert(id_code(ids[4]) == c);
        } else if c == 0x5444454E {
            assert(id_code(ids[5]) == c);
        } else if c == 0x5444524C {
            assert(id_code(ids[6]) == c);
        } else if c == 0x54445447 {
            assert(id_code(ids[7]) == c);
        } else if c == 0x544D4F4F {
            assert(id_code(ids[8]) == c);
        } else if c == 0x5450524F {
            assert(id_code(ids[9]) == c);
        } else if c == 0x54535354 {
            assert(id_code(ids[10]) == c);
        } else if c == 0x54534F41 {
            assert(id_code(ids[11]) == c);
        } else if c == 0x54534F50 {
            assert(id_code(ids[12]) == c);
        } else if c == 0x54534F54 {
            assert(id_code(ids[13]) == c);
        }
    }
}

/// Upgrading to ID3v2.4 drops exactly the frames that only ID3v2.3 defines and that it does not convert: every ID it drops is an ID3v2.3 ID that ID3v2.4 lacks, no ID that ID3v2.4 defines is dropped, and every ID3v2.3-only ID but the converted ones is dropped.
pub proof fn lemma_v4_dropped_ids_exact()
    ensures
        forall|id: Seq<u8>|
            #[trigger] v4_dropped_ids().contains(id) ==> id.len() == 4 && v3_frame_code(id_code(id))
                && !v4_frame_code(id_code(id)) && !v4_converted_code(id_code(id)),
        forall|id: Seq<u8>|
            id.len() == 4 && #[trigger] v4_frame_code(id_code(id)) ==> !v4_dropped_ids().contains(id),
        forall|c: u32|
            #[trigger] v3_frame_code(c) && !v4_frame_code(c) && !v4_converted_code(c) ==> exists|i: int|
                0 <= i < v4_dropped_ids().len() && id_code(#[trigger] v4_dropped_ids()[i]) == c,
{
    let ids = v4_dropped_ids();
    assert(ids.len() == 4);
    assert(ids[0].len() == 4 && id_code(ids[0]) == 0x45515541);
    assert(ids[1].len() == 4 && id_code(ids[1]) == 0x52564144);
    assert(ids[2].len() == 4 && id_code(ids[2]) == 0x5453495A);
    assert(ids[3].len() == 4 && id_code(ids[3]) == 0x54524441);
    assert forall|i: int| 0 <= i < 4 implies ids[i].len() == 4 && v3_frame_code(id_code(#[trigger] ids[i]))
        && !v4_frame_code(id_code(ids[i])) && !v4_converted_code(id_code(ids[i])) by {
        if i == 0 {
        } else if i == 1 {
        } else if i == 2 {
        } else if i == 3 {
        }
    }
    assert forall|c: u32| #[trigger] v3_frame_code(c) && !v4_frame_code(c) && !v4_converted_code(c) implies exists|i: int|
        0 <= i < ids.len() && id_code(#[trigger] ids[i]) == c by {
        if c == 0x45515541 {
            assert(id_code(ids[0]) == c);
        } else if c == 0x52564144 {
            assert(id_code(ids[1]) == c);
        } else if c == 0x5453495A {
            assert(id_code(ids[2]) == c);
        } else if c == 0x54524441 {
            assert(id_code(ids[3]) == c);
        }
    }
}

fn v3_dropped() -> (r: [[u8; 4]; 14])
    ensures
        id_list(r@) == v3_dropped_ids(),
{
    let r: [[u8; 4]; 14] = [[0x45, 0x51, 0x55, 0x32], [0x52, 0x56, 0x41, 0x32], [0x41, 0x53, 0x50, 0x49], [0x53, 0x45, 0x45, 0x4B], [0x53, 0x49, 0x47, 0x4E], [0x54, 0x44, 0x45, 0x4E], [0x54, 0x44, 0x52, 0x4C], [0x54, 0x44, 0x54, 0x47], [0x54, 0x4D, 0x4F, 0x4F], [0x54, 0x50, 0x52, 0x4F], [0x54, 0x53, 0x53, 0x54], [0x54, 0x53, 0x4F, 0x41], [0x54, 0x53, 0x4F, 0x50], [0x54, 0x53, 0x4F, 0x54]];
    proof {
        assert(r[0]@ =~= seq![0x45u8, 0x51, 0x55, 0x32]);
        assert(r[1]@ =~= seq![0x52u8, 0x56, 0x41, 0x32]);
        assert(r[2]@ =~= seq![0x41u8, 0x53, 0x50, 0x49]);
        assert(r[3]@ =~= seq![0x53u8, 0x45, 0x45, 0x4B]);
        assert(r[4]@ =~= seq![0x53u8, 0x49, 0x47, 0x4E]);
        assert(r[5]@ =~= seq![0x54u8, 0x44, 0x45, 0x4E]);
        assert(r[6]@ =~= seq![0x54u8, 0x44, 0x52, 0x4C]);
        assert(r[7]@ =~= seq![0x54u8, 0x44, 0x54, 0x47]);
        assert(r[8]@ =~= seq![0x54u8, 0x4D, 0x4F, 0x4F]);
        assert(r[9]@ =~= seq![0x54u8, 0x50, 0x52, 0x4F]);
        assert(r[10]@ =~= seq![0x54u8, 0x53, 0x53, 0x54]);
        assert(r[11]@ =~= seq![0x54u8, 0x53, 0x4F, 0x41]);
        assert(r[12]@ =~= seq![0x54u8, 0x53, 0x4F, 0x50]);
        assert(r[13]@ =~= seq![0x54u8, 0x53, 0x4F, 0x54]);
        assert(id_list(r@) =~= v3_dropped_ids());
    }
    r
}

fn v4_dropped() -> (r: [[u8; 4]; 4])
    ensures
        id_list(r@) == v4_dropped_ids(),
{
    let r: [[u8; 4]; 4] = [[0x45, 0x51, 0x55, 0x41], [0x52, 0x56, 0x41, 0x44], [0x54, 0x53, 0x49, 0x5A], [0x54, 0x52, 0x44, 0x41]];
    proof {
        assert(r[0]@ =~= seq![0x45u8, 0x51, 0x55, 0x41]);
        assert(r[1]@ =~= seq![0x52u8, 0x56, 0x41, 0x44]);
        assert(r[2]@ =~= seq![0x54u8, 0x53, 0x49, 0x5A]);
        assert(r[3]@ =~= seq![0x54u8, 0x52, 0x44, 0x41]);
        assert(id_list(r@) =~= v4_dropped_ids());
    }
    r
}

// ---- Conversions of frames ----

/// Whether no string of `ss` has a character.
pub open spec fn no_text(ss: Seq<Seq<char>>) -> bool {
    forall|i: int| 0 <= i < ss.len() ==> (#[trigger] ss[i]).len() == 0
}

/// The entries left by taking the text frame with ID `id` out of `m`, and its strings, if
/// `m` holds a text frame under that ID.
pub open spec fn take_text_spec(m: Seq<(Seq<char>, AnyFrame)>, id: Seq<u8>) -> (Seq<(Seq<char>, AnyFrame)>, Option<Seq<Seq<char>>>) {
    match lookup(m, ascii_chars(id)) {
        Some(AnyFrame::Text(t)) => (entries_remove(m, ascii_chars(id)), Some(strings_view(t.spec_text()))),
        _ => (m, None),
    }
}

/// The strings held by `o`, or none.
pub open spec fn strings_or_none(o: Option<Seq<Seq<char>>>) -> Seq<Seq<char>> {
    match o {
        Some(x) => x,
        None => Seq::empty(),
    }
}

/// Whether `f` is a new text frame with ID `id`, the default encoding and the strings `text`.
pub open spec fn new_text_frame(f: AnyFrame, id: Seq<u8>, text: Seq<Seq<char>>) -> bool {
    f matches AnyFrame::Text(t) && t.spec_frame_id().spec_bytes() == id && t.spec_encoding()
        == Encoding::Utf8 && strings_view(t.spec_text()) == text
}

/// Whether `after` is what adding a new text frame with ID `id` and the strings `text` to
/// `before` gives.
pub open spec fn added_text(
    before: Seq<(Seq<char>, AnyFrame)>,
    id: Seq<u8>,
    text: Seq<Seq<char>>,
    after: Seq<(Seq<char>, AnyFrame)>,
) -> bool {
    exists|f: AnyFrame| #[trigger] new_text_frame(f, id, text) && added(before, ascii_chars(id), f, after)
}

/// Whether `after` is what adding a new text frame with ID `id` and the strings `text` to
/// `before` gives, where the frame is not empty; `before` is left as it is otherwise.
pub open spec fn added_text_if_any(
    before: Seq<(Seq<char>, AnyFrame)>,
    id: Seq<u8>,
    text: Seq<Seq<char>>,
    after: Seq<(Seq<char>, AnyFrame)>,
) -> bool {
    if no_text(text) {
        after == before
    } else {
        added_text(before, id, text, after)
    }
}

/// Takes the text frame with ID `id` out of `frames` and returns its strings, if `frames`
/// holds a text frame under that ID.
fn take_text(frames: &mut FrameMap, id: &[u8; 4]) -> (r: Option<Vec<String>>)
    requires
        valid_frame_id(id@),
    ensures
        keys_sorted(final(frames).spec_entries()),
        ({
            let (m, o) = take_text_spec(old(frames).spec_entries(), id@);
            &&& final(frames).spec_entries() == m
            &&& match r {
                Some(v) => o == Some(strings_view(v@)),
                None => o is None,
            }
        }),
{
    let fid = FrameId::new(id);
    let is_text = match frames.get(fid.as_str()) {
        Some(AnyFrame::Text(_)) => true,
        _ => false,
    };
    if !is_text {
        return None;
    }
    match frames.remove(fid.as_str()) {
        Some(AnyFrame::Text(t)) => Some(t.into_strings()),
        _ => None,
    }
}

/// Adds a new text frame with ID `id` and the strings `text` to `frames`.
fn add_text(frames: &mut FrameMap, id: &[u8; 4], text: Vec<String>)
    requires
        valid_frame_id(id@),
        is_text_id(id_code(id@)),
    ensures
        keys_sorted(final(frames).spec_entries()),
        added_text(old(frames).spec_entries(), id@, strings_view(text@), final(frames).spec_entries()),
{
    let frame = TextFrame::with_strings(FrameId::new(id), text);
    let ghost f = AnyFrame::Text(frame);
    frames.add(AnyFrame::Text(frame));
    proof {
        assert(new_text_frame(f, id@, strings_view(text@)));
        assert(f.spec_key() == ascii_chars(id@));
    }
}

/// Whether every string of `text` is empty.
fn all_strings_empty(text: &[String]) -> (r: bool)
    ensures
        r == no_text(strings_view(text@)),
{
    let mut i: usize = 0;
    while i < text.len()
        invariant
            i <= text@.len(),
            forall|j: int| 0 <= j < i ==> (#[trigger] text@[j])@.len() == 0,
        decreases text@.len() - i,
    {
        if !text[i].as_str().is_empty() {
            proof {
                assert(strings_view(text@)[i as int] == text@[i as int]@);
            }
            return false;
        }
        i = i + 1;
    }
    proof {
        assert forall|j: int| 0 <= j < strings_view(text@).len() implies (#[trigger] strings_view(text@)[j]).len() == 0 by {
            assert(strings_view(text@)[j] == text@[j]@);
        }
    }
    true
}

/// Adds a new text frame with ID `id` and the strings `text` to `frames`, unless every
/// string is empty.
fn add_text_if_any(frames: &mut FrameMap, id: &[u8; 4], text: Vec<String>)
    requires
        valid_frame_id(id@),
        is_text_id(id_code(id@)),
    ensures
        keys_sorted(final(frames).spec_entries()),
        added_text_if_any(old(frames).spec_entries(), id@, strings_view(text@), final(frames).spec_entries()),
{
    if !all_strings_empty(text.as_slice()) {
        add_text(frames, id, text);
    } else {
        let _ = frames.len();
    }
}

/// The strings of `ss`, each padded with zeros in front of it up to four characters.
pub open spec fn padded(ss: Seq<Seq<char>>) -> Seq<Seq<char>> {
    ss.map_values(|s: Seq<char>| pad4(s))
}

/// The years of `TDOR` timestamps: the digits before the first `-` of each, padded with zeros
/// up to four characters. A timestamp with another character before its first `-` gives none.
pub open spec fn tory_years(ss: Seq<Seq<char>>) -> Seq<Seq<char>>
    decreases ss.len(),
{
    if ss.len() == 0 {
        Seq::empty()
    } else {
        push_some(tory_years(ss.drop_last()), match read_field(ss.last(), 0, '-').0 {
            Some(y) => Some(pad4(y)),
            None => None,
        })
    }
}

/// Pads each string of `ss` with zeros in front of it up to four characters.
fn pad_all(ss: &[String]) -> (r: Vec<String>)
    ensures
        strings_view(r@) == padded(strings_view(ss@)),
{
    let mut r: Vec<String> = Vec::new();
    let mut i: usize = 0;
    while i < ss.len()
        invariant
            i <= ss@.len(),
            r@.len() == i,
            forall|j: int| 0 <= j < i ==> (#[trigger] r@[j])@ == pad4(ss@[j]@),
        decreases ss@.len() - i,
    {
        r.push(pad_year(ss[i].as_str()));
        i = i + 1;
    }
    proof {
        assert(strings_view(r@) =~= padded(strings_view(ss@)));
    }
    r
}

/// Makes the years of the `TDOR` timestamps `ss`, as [`tory_years`](tory_years) describes.
fn years_of(ss: &[String]) -> (r: Vec<String>)
    ensures
        strings_view(r@) == tory_years(strings_view(ss@)),
{
    let mut r: Vec<String> = Vec::new();
    let mut i: usize = 0;
    while i < ss.len()
        invariant
            i <= ss@.len(),
            strings_view(r@) == tory_years(strings_view(ss@.take(i as int))),
        decreases ss@.len() - i,
    {
        let chars = chars_of(ss[i].as_str());
        let (ok, e, _) = read_field_at(chars.as_slice(), 0, '-');
        let ghost before = r@;
        if ok {
            let digits = string_of(chars.as_slice(), 0, e);
            r.push(pad_year(digits.as_str()));
        }
        proof {
            assert(strings_view(ss@.take(i + 1)).drop_last() =~= strings_view(ss@.take(i as int)));
            assert(strings_view(ss@.take(i + 1)).last() == ss@[i as int]@);
            assert(strings_view(r@) =~= push_some(strings_view(before), match read_field(ss@[i as int]@, 0, '-').0 {
                Some(y) => Some(pad4(y)),
                None => None,
            }));
        }
        i = i + 1;
    }
    proof {
        assert(ss@.take(i as int) =~= ss@);
    }
    r
}

/// The entries left by taking the credits frame under `key` out of `m`, and that frame, if
/// `m` holds a credits frame under that key.
pub open spec fn take_credits_spec(m: Seq<(Seq<char>, AnyFrame)>, key: Seq<char>) -> (Seq<(Seq<char>, AnyFrame)>, Option<CreditsFrame>) {
    match lookup(m, key) {
        Some(AnyFrame::Credits(c)) => (entries_remove(m, key), Some(c)),
        _ => (m, None),
    }
}

/// Whether `c` is a credits frame with ID `id`, the encoding `enc` and the pairs `people`.
pub open spec fn credits_with(c: CreditsFrame, id: Seq<u8>, enc: Encoding, people: Seq<(Seq<char>, Seq<char>)>) -> bool {
    c.spec_frame_id().spec_bytes() == id && c.spec_encoding() == enc && c.spec_people() == people
}

/// Whether `after` is what merging the `TIPL` and `TMCL` frames of `before` into one `IPLS`
/// frame gives: the `TIPL` frame takes on the pairs of the `TMCL` frame and the ID `IPLS`, and
/// a lone frame of either takes on that ID.
pub open spec fn credits_downgraded(before: Seq<(Seq<char>, AnyFrame)>, after: Seq<(Seq<char>, AnyFrame)>) -> bool {
    let (m1, a) = take_credits_spec(before, ascii_chars(tipl()));
    let (m2, b) = take_credits_spec(m1, ascii_chars(tmcl()));
    match (a, b) {
        (None, None) => after == before,
        (Some(x), Some(y)) => exists|c: CreditsFrame|
            #[trigger] credits_with(c, ipls(), x.spec_encoding(), people_extend(x.spec_people(), y.spec_people()))
                && after == entries_insert(m2, ascii_chars(tipl()), AnyFrame::Credits(c)),
        (Some(x), None) => exists|c: CreditsFrame|
            #[trigger] credits_with(c, ipls(), x.spec_encoding(), x.spec_people())
                && after == entries_insert(m2, ascii_chars(tipl()), AnyFrame::Credits(c)),
        (None, Some(y)) => exists|c: CreditsFrame|
            #[trigger] credits_with(c, ipls(), y.spec_encoding(), y.spec_people())
                && after == entries_insert(m2, ascii_chars(tipl()), AnyFrame::Credits(c)),
    }
}

/// Whether `after` is what giving an `IPLS` frame of `before` the ID `TIPL` gives.
pub open spec fn credits_upgraded(before: Seq<(Seq<char>, AnyFrame)>, after: Seq<(Seq<char>, AnyFrame)>) -> bool {
    match take_credits_spec(before, ascii_chars(tipl())) {
        (m, Some(x)) => if x.spec_frame_id().spec_bytes() == ipls() {
            exists|c: CreditsFrame|
                #[trigger] credits_with(c, tipl(), x.spec_encoding(), x.spec_people())
                    && after == entries_insert(m, ascii_chars(tipl()), AnyFrame::Credits(c))
        } else {
            after == before
        },
        (_, None) => after == before,
    }
}

/// Takes the credits frame under `key` out of `frames`, if there is one.
fn take_credits(frames: &mut FrameMap, key: &str) -> (r: Option<CreditsFrame>)
    ensures
        keys_sorted(final(frames).spec_entries()),
        (final(frames).spec_entries(), r) == take_credits_spec(old(frames).spec_entries(), key@),
{
    let is_credits = match frames.get(key) {
        Some(AnyFrame::Credits(_)) => true,
        _ => false,
    };
    if !is_credits {
        let _ = frames.len();
        return None;
    }
    match frames.remove(key) {
        Some(AnyFrame::Credits(c)) => Some(c),
        _ => None,
    }
}

/// Puts the credits frame `c` into `frames` with the ID `IPLS`.
fn put_ipls(frames: &mut FrameMap, c: CreditsFrame)
    requires
        keys_sorted(old(frames).spec_entries()),
    ensures
        keys_sorted(final(frames).spec_entries()),
        exists|d: CreditsFrame|
            #[trigger] credits_with(d, ipls(), c.spec_encoding(), c.spec_people())
                && final(frames).spec_entries() == entries_insert(
                old(frames).spec_entries(),
                ascii_chars(tipl()),
                AnyFrame::Credits(d),
            ),
{
    let mut c = c;
    c.set_id(known_id(0x49, 0x50, 0x4C, 0x53));
    let ghost d = c;
    proof {
        assert(d.spec_frame_id().spec_bytes() =~= ipls());
        assert(AnyFrame::Credits(d).spec_key() =~= ascii_chars(tipl()));
    }
    frames.insert(AnyFrame::Credits(c));
    proof {
        assert(credits_with(d, ipls(), c.spec_encoding(), c.spec_people()));
    }
}

/// Merges the `TIPL` and `TMCL` frames of `frames` into one `IPLS` frame, as
/// [`credits_downgraded`](credits_downgraded) describes.
fn downgrade_credits(frames: &mut FrameMap)
    ensures
        keys_sorted(final(frames).spec_entries()),
        credits_downgraded(old(frames).spec_entries(), final(frames).spec_entries()),
{
    let tipl_key = known_id(0x54, 0x49, 0x50, 0x4C);
    let tmcl_key = known_id(0x54, 0x4D, 0x43, 0x4C);
    proof {
        assert(tipl_key.spec_bytes() =~= tipl());
        assert(tmcl_key.spec_bytes() =~= tmcl());
    }
    let a = take_credits(frames, tipl_key.as_str());
    let b = take_credits(frames, tmcl_key.as_str());
    match (a, b) {
        (Some(mut x), Some(y)) => {
            x.extend(y);
            put_ipls(frames, x);
        },
        (Some(x), None) => put_ipls(frames, x),
        (None, Some(y)) => put_ipls(frames, y),
        (None, None) => {},
    }
}

/// Gives an `IPLS` frame of `frames` the ID `TIPL`, as [`credits_upgraded`](credits_upgraded)
/// describes.
fn upgrade_credits(frames: &mut FrameMap)
    ensures
        keys_sorted(final(frames).spec_entries()),
        credits_upgraded(old(frames).spec_entries(), final(frames).spec_entries()),
{
    let ghost before = frames.spec_entries();
    let tipl_key = known_id(0x54, 0x49, 0x50, 0x4C);
    proof {
        assert(tipl_key.spec_bytes() =~= tipl());
    }
    let is_ipls = match frames.get(tipl_key.as_str()) {
        Some(AnyFrame::Credits(c)) => {
            let b = c.id().inner();
            let r = b[0] == 0x49 && b[1] == 0x50 && b[2] == 0x4C && b[3] == 0x53;
            proof {
                if r {
                    assert(b@ =~= ipls());
                }
                if b@ == ipls() {
                    assert(b@[0] == 0x49 && b@[1] == 0x50 && b@[2] == 0x4C && b@[3] == 0x53);
                }
            }
            r
        },
        _ => false,
    };
    if !is_ipls {
        let _ = frames.len();
        return;
    }
    match take_credits(frames, tipl_key.as_str()) {
        Some(mut c) => {
            c.set_id(tipl_key);
            let ghost d = c;
            proof {
                assert(AnyFrame::Credits(d).spec_key() =~= ascii_chars(tipl()));
            }
            frames.insert(AnyFrame::Credits(c));
            proof {
                assert(credits_with(d, tipl(), d.spec_encoding(), d.spec_people()));
            }
        },
        None => {},
    }
}

/// The entries left by taking the ID3v2.3 date frames `TYER`, `TDAT` and `TIME` out of `m`,
/// and the strings of each.
pub open spec fn v3_dates(m: Seq<(Seq<char>, AnyFrame)>) -> (Seq<(Seq<char>, AnyFrame)>, Seq<Seq<char>>, Seq<Seq<char>>, Seq<Seq<char>>) {
    let (a, y) = take_text_spec(m, id_tyer());
    let (b, d) = take_text_spec(a, id_tdat());
    let (c, t) = take_text_spec(b, id_time());
    (c, strings_or_none(y), strings_or_none(d), strings_or_none(t))
}

/// Whether the `TDAT` and `TIME` strings of the frames `m` can be cut where upgrading the
/// frames to ID3v2.4 cuts them.
pub open spec fn v4_upgrade_cuts_cleanly(m: Seq<(Seq<char>, AnyFrame)>) -> bool {
    let (_, y, d, t) = v3_dates(m);
    tdrc_cuts_cleanly(y, d, t, 0, 0)
}

/// Whether `after` is what upgrading the frames `before` to ID3v2.4 gives: the `TYER`, `TDAT`
/// and `TIME` frames become a `TDRC` frame, a `TORY` frame becomes a `TDOR` frame, an `IPLS`
/// frame becomes a `TIPL` frame, and the frames with no ID3v2.4 analogue are dropped.
pub open spec fn v4_upgraded(before: Seq<(Seq<char>, AnyFrame)>, after: Seq<(Seq<char>, AnyFrame)>) -> bool {
    let (m1, y, d, t) = v3_dates(before);
    exists|m2: Seq<(Seq<char>, AnyFrame)>, m3: Seq<(Seq<char>, AnyFrame)>, m4: Seq<(Seq<char>, AnyFrame)>, pick: Seq<bool>|
        {
            &&& #[trigger] added_text_if_any(m1, id_tdrc(), tdrc_stamps(y, d, t, 0, 0), m2)
            &&& match take_text_spec(m2, id_tory()) {
                (r, Some(years)) => added_text(r, id_tdor(), padded(years), m3),
                (_, None) => m3 == m2,
            }
            &&& #[trigger] credits_upgraded(m3, m4)
            &&& #[trigger] marks_ids(m4, v4_dropped_ids(), pick)
            &&& after == kept(m4, pick.map_values(|b: bool| !b))
        }
}

/// Whether `after` is what splitting a `TDRC` frame of `before` into `TYER`, `TDAT` and `TIME`
/// frames gives.
pub open spec fn tdrc_split(before: Seq<(Seq<char>, AnyFrame)>, after: Seq<(Seq<char>, AnyFrame)>) -> bool {
    let taken = take_text_spec(before, id_tdrc());
    if taken.1 is Some {
        let parts = dates_of_stamps(taken.1->Some_0);
        exists|ma: Seq<(Seq<char>, AnyFrame)>, mb: Seq<(Seq<char>, AnyFrame)>|
            #[trigger] added_text_if_any(taken.0, id_tyer(), parts.0, ma) && #[trigger] added_text_if_any(
                ma,
                id_tdat(),
                parts.1,
                mb,
            ) && added_text_if_any(mb, id_time(), parts.2, after)
    } else {
        after == before
    }
}

/// Whether `after` is what turning a `TDOR` frame of `before` into a `TORY` frame gives.
pub open spec fn tdor_downgraded(before: Seq<(Seq<char>, AnyFrame)>, after: Seq<(Seq<char>, AnyFrame)>) -> bool {
    match take_text_spec(before, id_tdor()) {
        (r, Some(stamps)) => added_text(r, id_tory(), tory_years(stamps), after),
        (_, None) => after == before,
    }
}

/// Whether `after` is what downgrading the frames `before` to ID3v2.3 gives: a `TDRC` frame
/// becomes `TYER`, `TDAT` and `TIME` frames, a `TDOR` frame becomes a `TORY` frame, the `TIPL`
/// and `TMCL` frames become one `IPLS` frame, and the frames with no ID3v2.3 analogue are
/// dropped.
pub open spec fn v3_downgraded(before: Seq<(Seq<char>, AnyFrame)>, after: Seq<(Seq<char>, AnyFrame)>) -> bool {
    exists|m1: Seq<(Seq<char>, AnyFrame)>, m2: Seq<(Seq<char>, AnyFrame)>, m3: Seq<(Seq<char>, AnyFrame)>, pick: Seq<bool>|
        {
            &&& #[trigger] tdrc_split(before, m1)
            &&& #[trigger] tdor_downgraded(m1, m2)
            &&& #[trigger] credits_downgraded(m2, m3)
            &&& #[trigger] marks_ids(m3, v3_dropped_ids(), pick)
            &&& after == kept(m3, pick.map_values(|b: bool| !b))
        }
}

/// The strings of `o`, or none.
fn strings_or_empty(o: Option<Vec<String>>) -> (r: Vec<String>)
    ensures
        o matches Some(v) ==> r@ == v@,
        o is None ==> r@.len() == 0,
{
    match o {
        Some(v) => v,
        None => Vec::new(),
    }
}

/// Upgrades the frames `frames` to ID3v2.4: the `TYER`, `TDAT` and `TIME` frames become a
/// `TDRC` frame, a `TORY` frame becomes a `TDOR` frame, an `IPLS` frame becomes a `TIPL`
/// frame, and `EQUA`, `RVAD`, `TSIZ` and `TRDA` frames are dropped.
pub fn to_v4(frames: &mut FrameMap)
    requires
        v4_upgrade_cuts_cleanly(old(frames).spec_entries()),
    ensures
        keys_sorted(final(frames).spec_entries()),
        v4_upgraded(old(frames).spec_entries(), final(frames).spec_entries()),
{
    let ghost m0 = frames.spec_entries();
    let tyer = strings_or_empty(take_text(frames, &tyer_bytes()));
    let tdat = strings_or_empty(take_text(frames, &tdat_bytes()));
    let time = strings_or_empty(take_text(frames, &time_bytes()));
    let ghost m1 = frames.spec_entries();
    proof {
        let (c, y, d, t) = v3_dates(m0);
        assert(c == m1);
        assert(strings_view(tyer@) =~= y);
        assert(strings_view(tdat@) =~= d);
        assert(strings_view(time@) =~= t);
    }
    let stamps = tdrc_from_dates(tyer.as_slice(), tdat.as_slice(), time.as_slice());
    add_text_if_any(frames, &tdrc_bytes(), stamps);
    let ghost m2 = frames.spec_entries();
    match take_text(frames, &tory_bytes()) {
        Some(years) => {
            let padded_years = pad_all(years.as_slice());
            add_text(frames, &tdor_bytes(), padded_years);
        },
        None => {},
    }
    let ghost m3 = frames.spec_entries();
    // Like TORY, the IPLS frame takes on its ID3v2.4 ID.
    upgrade_credits(frames);
    let ghost m4 = frames.spec_entries();
    frames.drop_ids(&v4_dropped());
    proof {
        let pick = choose|pick: Seq<bool>|
            #[trigger] marks_ids(m4, v4_dropped_ids(), pick) && frames.spec_entries() == kept(
                m4,
                pick.map_values(|b: bool| !b),
            );
        assert(added_text_if_any(v3_dates(m0).0, id_tdrc(), tdrc_stamps(v3_dates(m0).1, v3_dates(m0).2, v3_dates(m0).3, 0, 0), m2));
        assert(marks_ids(m4, v4_dropped_ids(), pick));
        assert(credits_upgraded(m3, m4));
    }
}

/// Downgrades the frames `frames` to ID3v2.3: a `TDRC` frame becomes `TYER`, `TDAT` and `TIME`
/// frames, a `TDOR` frame becomes a `TORY` frame, `TIPL` and `TMCL` frames are merged into an
/// `IPLS` frame, and `EQU2`, `RVA2`, `ASPI`, `SEEK`, `SIGN`,
/// `TDEN`, `TDRL`, `TDTG`, `TMOO`, `TPRO`, `TSST`, `TSOA`, `TSOP` and `TSOT` frames are dropped.
pub fn to_v3(frames: &mut FrameMap)
    ensures
        keys_sorted(final(frames).spec_entries()),
        v3_downgraded(old(frames).spec_entries(), final(frames).spec_entries()),
{
    let ghost m0 = frames.spec_entries();
    match take_text(frames, &tdrc_bytes()) {
        Some(stamps) => {
            let ghost r = frames.spec_entries();
            let (tyer, tdat, time) = dates_from_tdrc(stamps.as_slice());
            add_text_if_any(frames, &tyer_bytes(), tyer);
            let ghost ma = frames.spec_entries();
            add_text_if_any(frames, &tdat_bytes(), tdat);
            let ghost mb = frames.spec_entries();
            add_text_if_any(frames, &time_bytes(), time);
            proof {
                let (y, d, t) = dates_of_stamps(strings_view(stamps@));
                assert(take_text_spec(m0, id_tdrc()) == (r, Some(strings_view(stamps@))));
                assert(added_text_if_any(r, id_tyer(), y, ma));
                assert(added_text_if_any(ma, id_tdat(), d, mb));
                assert(added_text_if_any(mb, id_time(), t, frames.spec_entries()));
                assert(exists|ma2: Seq<(Seq<char>, AnyFrame)>, mb2: Seq<(Seq<char>, AnyFrame)>|
                    #[trigger] added_text_if_any(r, id_tyer(), y, ma2) && #[trigger] added_text_if_any(
                        ma2,
                        id_tdat(),
                        d,
                        mb2,
                    ) && added_text_if_any(mb2, id_time(), t, frames.spec_entries()));
                let taken = take_text_spec(m0, id_tdrc());
                assert(taken.1 is Some);
                assert(taken.0 == r);
                let parts = dates_of_stamps(taken.1->Some_0);
                assert(parts.0 == y && parts.1 == d && parts.2 == t);
                assert(tdrc_split(m0, frames.spec_entries()));
            }
        },
        None => {
            proof {
                assert(tdrc_split(m0, frames.spec_entries()));
            }
        },
    }
    let ghost m1 = frames.spec_entries();
    match take_text(frames, &tdor_bytes()) {
        Some(stamps) => {
            let years = years_of(stamps.as_slice());
            add_text(frames, &tory_bytes(), years);
        },
        None => {},
    }
    let ghost m2 = frames.spec_entries();
    proof {
        assert(tdor_downgraded(m1, m2));
    }
    // Merge TIPL and TMCL into an IPLS frame.
    downgrade_credits(frames);
    let ghost m3 = frames.spec_entries();
    frames.drop_ids(&v3_dropped());
    proof {
        let pick = choose|pick: Seq<bool>|
            #[trigger] marks_ids(m3, v3_dropped_ids(), pick) && frames.spec_entries() == kept(
                m3,
                pick.map_values(|b: bool| !b),
            );
        assert(marks_ids(m3, v3_dropped_ids(), pick));
        assert(credits_downgraded(m2, m3));
    }
}

/// No frame of `m` that `pick` marks is kept by `keep`, the marks turned over.
proof fn lemma_none_dropped(m: Seq<(Seq<char>, AnyFrame)>, ids: Seq<Seq<u8>>, pick: Seq<bool>, keep: Seq<bool>)
    requires
        marks_ids(m, ids, pick),
        keep == pick.map_values(|b: bool| !b),
    ensures
        forall|i: int|
            0 <= i < kept(m, keep).len() && !(#[trigger] kept(m, keep)[i]).1.is_custom()
                ==> !ids.contains(kept(m, keep)[i].1.spec_id()),
{
    let r = kept(m, keep);
    assert forall|i: int| 0 <= i < r.len() && !(#[trigger] r[i]).1.is_custom() implies !ids.contains(
        r[i].1.spec_id(),
    ) by {
        lemma_kept_place(m, keep, i);
        let j = kept_place(m, keep, i);
        assert(!m[j].1.is_custom());
    }
}

/// Upgrading frames to ID3v2.4 leaves no frame whose ID has no ID3v2.4 analogue, as far as
/// the frames are described.
pub proof fn lemma_upgrade_drops(before: Seq<(Seq<char>, AnyFrame)>, after: Seq<(Seq<char>, AnyFrame)>)
    requires
        v4_upgraded(before, after),
    ensures
        forall|i: int|
            0 <= i < after.len() && !(#[trigger] after[i]).1.is_custom() ==> !v4_dropped_ids().contains(
                after[i].1.spec_id(),
            ),
{
    let (m2, m3, m4, pick) = choose|m2: Seq<(Seq<char>, AnyFrame)>, m3: Seq<(Seq<char>, AnyFrame)>, m4: Seq<(Seq<char>, AnyFrame)>, pick: Seq<bool>|
        {
            &&& #[trigger] added_text_if_any(v3_dates(before).0, id_tdrc(), tdrc_stamps(v3_dates(before).1, v3_dates(before).2, v3_dates(before).3, 0, 0), m2)
            &&& match take_text_spec(m2, id_tory()) {
                (r, Some(years)) => added_text(r, id_tdor(), padded(years), m3),
                (_, None) => m3 == m2,
            }
            &&& #[trigger] credits_upgraded(m3, m4)
            &&& #[trigger] marks_ids(m4, v4_dropped_ids(), pick)
            &&& after == kept(m4, pick.map_values(|b: bool| !b))
        };
    lemma_none_dropped(m4, v4_dropped_ids(), pick, pick.map_values(|b: bool| !b));
}

/// Downgrading frames to ID3v2.3 leaves no frame whose ID has no ID3v2.3 analogue, as far as
/// the frames are described.
pub proof fn lemma_downgrade_drops(before: Seq<(Seq<char>, AnyFrame)>, after: Seq<(Seq<char>, AnyFrame)>)
    requires
        v3_downgraded(before, after),
    ensures
        forall|i: int|
            0 <= i < after.len() && !(#[trigger] after[i]).1.is_custom() ==> !v3_dropped_ids().contains(
                after[i].1.spec_id(),
            ),
{
    let (m1, m2, m3, pick) = choose|m1: Seq<(Seq<char>, AnyFrame)>, m2: Seq<(Seq<char>, AnyFrame)>, m3: Seq<(Seq<char>, AnyFrame)>, pick: Seq<bool>|
        {
            &&& #[trigger] tdrc_split(before, m1)
            &&& #[trigger] tdor_downgraded(m1, m2)
            &&& #[trigger] credits_downgraded(m2, m3)
            &&& #[trigger] marks_ids(m3, v3_dropped_ids(), pick)
            &&& after == kept(m3, pick.map_values(|b: bool| !b))
        };
    lemma_none_dropped(m3, v3_dropped_ids(), pick, pick.map_values(|b: bool| !b));
}

/// The strings of the text frame with ID `id` in `frames`, or none where there is no such frame.
fn text_of<'a>(frames: &'a FrameMap, id: &[u8; 4]) -> (r: &'a [String])
    requires
        valid_frame_id(id@),
    ensures
        strings_view(r@) == strings_or_none(take_text_spec(frames.spec_entries(), id@).1),
{
    let fid = FrameId::new(id);
    match frames.get(fid.as_str()) {
        Some(AnyFrame::Text(t)) => t.strings(),
        _ => {
            let r: &[String] = &[];
            proof {
                assert(strings_view(r@) =~= Seq::<Seq<char>>::empty());
            }
            r
        },
    }
}

/// Returns whether the `TDAT` and `TIME` strings of `frames` can be cut where upgrading the
/// frames to ID3v2.4 cuts them; upgrading requires this.
pub fn upgrade_cuts_cleanly(frames: &FrameMap) -> (r: bool)
    ensures
        r == v4_upgrade_cuts_cleanly(frames.spec_entries()),
{
    let _ = frames.len();
    let ghost m = frames.spec_entries();
    let tyer = text_of(frames, &tyer_bytes());
    let tdat = text_of(frames, &tdat_bytes());
    let time = text_of(frames, &time_bytes());
    proof {
        let ky = ascii_chars(id_tyer());
        let kd = ascii_chars(id_tdat());
        let kt = ascii_chars(id_time());
        assert(ky != kd && ky != kt && kd != kt) by {
            assert(ky[1] != kd[1]);
            assert(ky[1] != kt[1]);
            assert(kd[2] != kt[2]);
        }
        let (a, _) = take_text_spec(m, id_tyer());
        lemma_lookup_remove(m, ky, kd);
        lemma_lookup_remove(m, ky, kt);
        let (b, _) = take_text_spec(a, id_tdat());
        lemma_lookup_remove(a, kd, kt);
    }
    dates_cut_cleanly(tyer, tdat, time)
}

/// The ID3v2.3 frame ID that an ID3v2.2 frame ID, given by its [`legacy_code`](legacy_code), is
/// upgraded to, if it has one. `PIC` is handled separately and `CRM` has no analogue.
pub open spec fn spec_upgrade_v2_id(code: u32) -> Option<Seq<u8>> {
    if code == 0x425546 {
        // BUF -> RBUF
        Some(seq![0x52, 0x42, 0x55, 0x46])
    } else if code == 0x434E54 {
        // CNT -> PCNT
        Some(seq![0x50, 0x43, 0x4E, 0x54])
    } else if code == 0x434F4D {
        // COM -> COMM
        Some(seq![0x43, 0x4F, 0x4D, 0x4D])
    } else if code == 0x435241 {
        // CRA -> AENC
        Some(seq![0x41, 0x45, 0x4E, 0x43])
    } else if code == 0x455443 {
        // ETC -> ETCO
        Some(seq![0x45, 0x54, 0x43, 0x4F])
    } else if code == 0x455155 {
        // EQU -> EQUA
        Some(seq![0x45, 0x51, 0x55, 0x41])
    } else if code == 0x47454F {
        // GEO -> GEOB
        Some(seq![0x47, 0x45, 0x4F, 0x42])
    } else if code == 0x49504C {
        // IPL -> IPLS
        Some(seq![0x49, 0x50, 0x4C, 0x53])
    } else if code == 0x4C4E4B {
        // LNK -> LINK
        Some(seq![0x4C, 0x49, 0x4E, 0x4B])
    } else if code == 0x4D4349 {
        // MCI -> MCDI
        Some(seq![0x4D, 0x43, 0x44, 0x49])
    } else if code == 0x4D4C4C {
        // MLL -> MLLT
        Some(seq![0x4D, 0x4C, 0x4C, 0x54])
    } else if code == 0x504F50 {
        // POP -> POPM
        Some(seq![0x50, 0x4F, 0x50, 0x4D])
    } else if code == 0x524556 {
        // REV -> RVRB
        Some(seq![0x52, 0x56, 0x52, 0x42])
    } else if code == 0x525641 {
        // RVA -> RVAD
        Some(seq![0x52, 0x56, 0x41, 0x44])
    } else if code == 0x534C54 {
        // SLT -> SYLT
        Some(seq![0x53, 0x59, 0x4C, 0x54])
    } else if code == 0x535443 {
        // STC -> SYTC
        Some(seq![0x53, 0x59, 0x54, 0x43])
    } else if code == 0x54414C {
        // TAL -> TALB
        Some(seq![0x54, 0x41, 0x4C, 0x42])
    } else if code == 0x544250 {
        // TBP -> TBPM
        Some(seq![0x54, 0x42, 0x50, 0x4D])
    } else if code == 0x54434D {
        // TCM -> TCOM
        Some(seq![0x54, 0x43, 0x4F, 0x4D])
    } else if code == 0x54434F {
        // TCO -> TCON
        Some(seq![0x54, 0x43, 0x4F, 0x4E])
    } else if code == 0x544352 {
        // TCR -> TCOP
        Some(seq![0x54, 0x43, 0x4F, 0x50])
    } else if code == 0x544441 {
        // TDA -> TDAT
        Some(seq![0x54, 0x44, 0x41, 0x54])
    } else if code == 0x544459 {
        // TDY -> TDLY
        Some(seq![0x54, 0x44, 0x4C, 0x59])
    } else if code == 0x544654 {
        // TFT -> TFLT
        Some(seq![0x54, 0x46, 0x4C, 0x54])
    } else if code == 0x54454E {
        // TEN -> TENC
        Some(seq![0x54, 0x45, 0x4E, 0x43])
    } else if code == 0x54494D {
        // TIM -> TIME
        Some(seq![0x54, 0x49, 0x4D, 0x45])
    } else if code == 0x544B45 {
        // TKE -> TKEY
        Some(seq![0x54, 0x4B, 0x45, 0x59])
    } else if code == 0x544C41 {
        // TLA -> TLAN
        Some(seq![0x54, 0x4C, 0x41, 0x4E])
    } else if code == 0x544C45 {
        // TLE -> TLEN
        Some(seq![0x54, 0x4C, 0x45, 0x4E])
    } else if code == 0x544D54 {
        // TMT -> TMED
        Some(seq![0x54, 0x4D, 0x45, 0x44])
    } else if code == 0x544F41 {
        // TOA -> TOPE
        Some(seq![0x54, 0x4F, 0x50, 0x45])
    } else if code == 0x544F46 {
        // TOF -> TOFN
        Some(seq![0x54, 0x4F, 0x46, 0x4E])
    } else if code == 0x544F4C {
        // TOL -> TOLY
        Some(seq![0x54, 0x4F, 0x4C, 0x59])
    } else if code == 0x544F52 {
        // TOR -> TORY
        Some(seq![0x54, 0x4F, 0x52, 0x59])
    } else if code == 0x544F54 {
        // TOT -> TOAR
        Some(seq![0x54, 0x4F, 0x41, 0x52])
    } else if code == 0x545031 {
        // TP1 -> TPE1
        Some(seq![0x54, 0x50, 0x45, 0x31])
    } else if code == 0x545032 {
        // TP2 -> TPE2
        Some(seq![0x54, 0x50, 0x45, 0x32])
    } else if code == 0x545033 {
        // TP3 -> TPE3
        Some(seq![0x54, 0x50, 0x45, 0x33])
    } else if code == 0x545034 {
        // TP4 -> TPE4
        Some(seq![0x54, 0x50, 0x45, 0x34])
    } else if code == 0x545041 {
        // TPA -> TPOS
        Some(seq![0x54, 0x50, 0x4F, 0x53])
    } else if code == 0x545042 {
        // TPB -> TPUB
        Some(seq![0x54, 0x50, 0x55, 0x42])
    } else if code == 0x545243 {
        // TRC -> TSRC
        Some(seq![0x54, 0x53, 0x52, 0x43])
    } else if code == 0x545244 {
        // TRD -> TRDA
        Some(seq![0x54, 0x52, 0x44, 0x41])
    } else if code == 0x54524B {
        // TRK -> TRCK
        Some(seq![0x54, 0x52, 0x43, 0x4B])
    } else if code == 0x545349 {
        // TSI -> TSIZ
        Some(seq![0x54, 0x53, 0x49, 0x5A])
    } else if code == 0x545353 {
        // TSS -> TSSE
        Some(seq![0x54, 0x53, 0x53, 0x45])
    } else if code == 0x545431 {
        // TT1 -> TIT1
        Some(seq![0x54, 0x49, 0x54, 0x31])
    } else if code == 0x545432 {
        // TT2 -> TIT2
        Some(seq![0x54, 0x49, 0x54, 0x32])
    } else if code == 0x545433 {
        // TT3 -> TIT3
        Some(seq![0x54, 0x49, 0x54, 0x33])
    } else if code == 0x545854 {
        // TXT -> TEXT
        Some(seq![0x54, 0x45, 0x58, 0x54])
    } else if code == 0x545858 {
        // TXX -> TXXX
        Some(seq![0x54, 0x58, 0x58, 0x58])
    } else if code == 0x545945 {
        // TYE -> TYER
        Some(seq![0x54, 0x59, 0x45, 0x52])
    } else if code == 0x554649 {
        // UFI -> UFID
        Some(seq![0x55, 0x46, 0x49, 0x44])
    } else if code == 0x554C54 {
        // ULT -> USLT
        Some(seq![0x55, 0x53, 0x4C, 0x54])
    } else if code == 0x574146 {
        // WAF -> WOAF
        Some(seq![0x57, 0x4F, 0x41, 0x46])
    } else if code == 0x574152 {
        // WAR -> WOAR
        Some(seq![0x57, 0x4F, 0x41, 0x52])
    } else if code == 0x574153 {
        // WAS -> WOAS
        Some(seq![0x57, 0x4F, 0x41, 0x53])
    } else if code == 0x57434D {
        // WCM -> WCOM
        Some(seq![0x57, 0x43, 0x4F, 0x4D])
    } else if code == 0x574350 {
        // WCP -> WCOP
        Some(seq![0x57, 0x43, 0x4F, 0x50])
    } else if code == 0x575042 {
        // WPB -> WPUB
        Some(seq![0x57, 0x50, 0x55, 0x42])
    } else if code == 0x575858 {
        // WXX -> WXXX
        Some(seq![0x57, 0x58, 0x58, 0x58])
    } else if code == 0x504353 {
        // PCS -> PCST
        Some(seq![0x50, 0x43, 0x53, 0x54])
    } else if code == 0x544354 {
        // TCT -> TCAT
        Some(seq![0x54, 0x43, 0x41, 0x54])
    } else if code == 0x544452 {
        // TDR -> TDRL
        Some(seq![0x54, 0x44, 0x52, 0x4C])
    } else if code == 0x544453 {
        // TDS -> TDES
        Some(seq![0x54, 0x44, 0x45, 0x53])
    } else if code == 0x544944 {
        // TID -> TGID
        Some(seq![0x54, 0x47, 0x49, 0x44])
    } else if code == 0x574644 {
        // WFD -> WFED
        Some(seq![0x57, 0x46, 0x45, 0x44])
    } else if code == 0x4D564E {
        // MVN -> MVNM
        Some(seq![0x4D, 0x56, 0x4E, 0x4D])
    } else if code == 0x4D5649 {
        // MVI -> MVIN
        Some(seq![0x4D, 0x56, 0x49, 0x4E])
    } else if code == 0x475031 {
        // GP1 -> GRP1
        Some(seq![0x47, 0x52, 0x50, 0x31])
    } else {
        None
    }
}

/// Every ID that an ID3v2.2 frame ID is upgraded to is a valid frame ID.
pub proof fn lemma_upgraded_ids_valid(code: u32)
    ensures
        spec_upgrade_v2_id(code) matches Some(id) ==> id.len() == 4 && valid_frame_id(id),
{
}

/// Converts an ID3v2.2 frame ID to its ID3v2.3 analogue.
///
/// # Errors
/// If the ID has no analogue, `NotFound` is returned.
pub fn upgrade_v2_id(id: &[u8; 3]) -> (r: ParseResult<FrameId>)
    ensures
        match r {
            Ok(v3) => spec_upgrade_v2_id(legacy_code(id@)) == Some(v3.spec_bytes()),
            Err(e) => spec_upgrade_v2_id(legacy_code(id@)) is None && e == ParseError::NotFound,
        },
{
    let code = legacy_code_of(id);
    let v3: [u8; 4] =         if code == 0x425546 {
            [0x52, 0x42, 0x55, 0x46]
        } else if code == 0x434E54 {
            [0x50, 0x43, 0x4E, 0x54]
        } else if code == 0x434F4D {
            [0x43, 0x4F, 0x4D, 0x4D]
        } else if code == 0x435241 {
            [0x41, 0x45, 0x4E, 0x43]
        } else if code == 0x455443 {
            [0x45, 0x54, 0x43, 0x4F]
        } else if code == 0x455155 {
            [0x45, 0x51, 0x55, 0x41]
        } else if code == 0x47454F {
            [0x47, 0x45, 0x4F, 0x42]
        } else if code == 0x49504C {
            [0x49, 0x50, 0x4C, 0x53]
        } else if code == 0x4C4E4B {
            [0x4C, 0x49, 0x4E, 0x4B]
        } else if code == 0x4D4349 {
            [0x4D, 0x43, 0x44, 0x49]
        } else if code == 0x4D4C4C {
            [0x4D, 0x4C, 0x4C, 0x54]
        } else if code == 0x504F50 {
            [0x50, 0x4F, 0x50, 0x4D]
        } else if code == 0x524556 {
            [0x52, 0x56, 0x52, 0x42]
        } else if code == 0x525641 {
            [0x52, 0x56, 0x41, 0x44]
        } else if code == 0x534C54 {
            [0x53, 0x59, 0x4C, 0x54]
        } else if code == 0x535443 {
            [0x53, 0x59, 0x54, 0x43]
        } else if code == 0x54414C {
            [0x54, 0x41, 0x4C, 0x42]
        } else if code == 0x544250 {
            [0x54, 0x42, 0x50, 0x4D]
        } else if code == 0x54434D {
            [0x54, 0x43, 0x4F, 0x4D]
        } else if code == 0x54434F {
            [0x54, 0x43, 0x4F, 0x4E]
        } else if code == 0x544352 {
            [0x54, 0x43, 0x4F, 0x50]
        } else if code == 0x544441 {
            [0x54, 0x44, 0x41, 0x54]
        } else if code == 0x544459 {
            [0x54, 0x44, 0x4C, 0x59]
        } else if code == 0x544654 {
            [0x54, 0x46, 0x4C, 0x54]
        } else if code == 0x54454E {
            [0x54, 0x45, 0x4E, 0x43]
        } else if code == 0x54494D {
            [0x54, 0x49, 0x4D, 0x45]
        } else if code == 0x544B45 {
            [0x54, 0x4B, 0x45, 0x59]
        } else if code == 0x544C41 {
            [0x54, 0x4C, 0x41, 0x4E]
        } else if code == 0x544C45 {
            [0x54, 0x4C, 0x45, 0x4E]
        } else if code == 0x544D54 {
            [0x54, 0x4D, 0x45, 0x44]
        } else if code == 0x544F41 {
            [0x54, 0x4F, 0x50, 0x45]
        } else if code == 0x544F46 {
            [0x54, 0x4F, 0x46, 0x4E]
        } else if code == 0x544F4C {
            [0x54, 0x4F, 0x4C, 0x59]
        } else if code == 0x544F52 {
            [0x54, 0x4F, 0x52, 0x59]
        } else if code == 0x544F54 {
            [0x54, 0x4F, 0x41, 0x52]
        } else if code == 0x545031 {
            [0x54, 0x50, 0x45, 0x31]
        } else if code == 0x545032 {
            [0x54, 0x50, 0x45, 0x32]
        } else if code == 0x545033 {
            [0x54, 0x50, 0x45, 0x33]
        } else if code == 0x545034 {
            [0x54, 0x50, 0x45, 0x34]
        } else if code == 0x545041 {
            [0x54, 0x50, 0x4F, 0x53]
        } else if code == 0x545042 {
            [0x54, 0x50, 0x55, 0x42]
        } else if code == 0x545243 {
            [0x54, 0x53, 0x52, 0x43]
        } else if code == 0x545244 {
            [0x54, 0x52, 0x44, 0x41]
        } else if code == 0x54524B {
            [0x54, 0x52, 0x43, 0x4B]
        } else if code == 0x545349 {
            [0x54, 0x53, 0x49, 0x5A]
        } else if code == 0x545353 {
            [0x54, 0x53, 0x53, 0x45]
        } else if code == 0x545431 {
            [0x54, 0x49, 0x54, 0x31]
        } else if code == 0x545432 {
            [0x54, 0x49, 0x54, 0x32]
        } else if code == 0x545433 {
            [0x54, 0x49, 0x54, 0x33]
        } else if code == 0x545854 {
            [0x54, 0x45, 0x58, 0x54]
        } else if code == 0x545858 {
            [0x54, 0x58, 0x58, 0x58]
        } else if code == 0x545945 {
            [0x54, 0x59, 0x45, 0x52]
        } else if code == 0x554649 {
            [0x55, 0x46, 0x49, 0x44]
        } else if code == 0x554C54 {
            [0x55, 0x53, 0x4C, 0x54]
        } else if code == 0x574146 {
            [0x57, 0x4F, 0x41, 0x46]
        } else if code == 0x574152 {
            [0x57, 0x4F, 0x41, 0x52]
        } else if code == 0x574153 {
            [0x57, 0x4F, 0x41, 0x53]
        } else if code == 0x57434D {
            [0x57, 0x43, 0x4F, 0x4D]
        } else if code == 0x574350 {
            [0x57, 0x43, 0x4F, 0x50]
        } else if code == 0x575042 {
            [0x57, 0x50, 0x55, 0x42]
        } else if code == 0x575858 {
            [0x57, 0x58, 0x58, 0x58]
        } else if code == 0x504353 {
            [0x50, 0x43, 0x53, 0x54]
        } else if code == 0x544354 {
            [0x54, 0x43, 0x41, 0x54]
        } else if code == 0x544452 {
            [0x54, 0x44, 0x52, 0x4C]
        } else if code == 0x544453 {
            [0x54, 0x44, 0x45, 0x53]
        } else if code == 0x544944 {
            [0x54, 0x47, 0x49, 0x44]
        } else if code == 0x574644 {
            [0x57, 0x46, 0x45, 0x44]
        } else if code == 0x4D564E {
            [0x4D, 0x56, 0x4E, 0x4D]
        } else if code == 0x4D5649 {
            [0x4D, 0x56, 0x49, 0x4E]
        } else if code == 0x475031 {
            [0x47, 0x52, 0x50, 0x31]
        } else {
            return Err(ParseError::NotFound);
        };
    proof {
        lemma_upgraded_ids_valid(code);
        assert(spec_upgrade_v2_id(code) == Some(v3@));
    }
    Ok(FrameId::new(&v3))
}

} // verus!
