//! SRT subtitle output: timestamp formatting, cue rendering, and a parser
//! specification that pins the format down.
//!
//! Timestamps are carried as whole milliseconds. The renderer writes
//! `HH:MM:SS,mmm` fields from a total-millisecond value, so the millisecond
//! field can never show `1000`, and cues are numbered from 1.

use vstd::prelude::*;
use vstd::string::StrSliceExecFns;
use vstd::string::StringExecFns;

verus! {

/// One subtitle cue: timestamps in milliseconds and the text shown.
pub struct Segment {
    pub start_ms: u64,
    pub end_ms: u64,
    pub text: String,
}

/// The mathematical shadow of a [`Segment`].
pub ghost struct SegModel {
    pub start_ms: nat,
    pub end_ms: nat,
    pub text: Seq<char>,
}

impl View for Segment {
    type V = SegModel;

    open spec fn view(&self) -> SegModel {
        SegModel { start_ms: self.start_ms as nat, end_ms: self.end_ms as nat, text: self.text@ }
    }
}

/// The models of a sequence of segments.
pub open spec fn seg_models(v: Seq<Segment>) -> Seq<SegModel> {
    v.map_values(|s: Segment| s@)
}

/// The digit character for `d` in `0 ..= 9`.
pub open spec fn digit_char(d: nat) -> char {
    if d == 0 { '0' } else if d == 1 { '1' } else if d == 2 { '2' } else if d == 3 { '3' }
    else if d == 4 { '4' } else if d == 5 { '5' } else if d == 6 { '6' } else if d == 7 { '7' }
    else if d == 8 { '8' } else { '9' }
}

/// `c` is a decimal digit.
pub open spec fn is_digit(c: char) -> bool {
    c == '0' || c == '1' || c == '2' || c == '3' || c == '4' || c == '5' || c == '6' || c == '7'
        || c == '8' || c == '9'
}

/// The numeric value of a digit character.
pub open spec fn digit_val(c: char) -> nat {
    if c == '0' { 0 } else if c == '1' { 1 } else if c == '2' { 2 } else if c == '3' { 3 }
    else if c == '4' { 4 } else if c == '5' { 5 } else if c == '6' { 6 } else if c == '7' { 7 }
    else if c == '8' { 8 } else { 9 }
}

/// Decimal representation of `n`, most significant digit first, no leading
/// zeros (a single `0` for zero).
pub open spec fn dec_rep(n: nat) -> Seq<char>
    decreases n,
{
    if n < 10 {
        seq![digit_char(n)]
    } else {
        dec_rep(n / 10).push(digit_char(n % 10))
    }
}

/// Every character of a decimal representation is a digit, and there is at
/// least one.
pub proof fn lemma_dec_rep_digits(n: nat)
    ensures
        dec_rep(n).len() >= 1,
        forall|k: int| 0 <= k < dec_rep(n).len() ==> is_digit(#[trigger] dec_rep(n)[k]),
    decreases n,
{
    if n >= 10 {
        lemma_dec_rep_digits(n / 10);
    }
}

/// The value a digit string stands for, read most significant first.
pub open spec fn digits_value(s: Seq<char>) -> nat
    decreases s.len(),
{
    if s.len() == 0 {
        0
    } else {
        digits_value(s.drop_last()) * 10 + digit_val(s.last())
    }
}

/// All characters of `s` are decimal digits.
pub open spec fn all_digits(s: Seq<char>) -> bool {
    forall|k: int| 0 <= k < s.len() ==> is_digit(#[trigger] s[k])
}

/// Reading the decimal representation back yields the value.
pub proof fn lemma_digits_value_of_rep(n: nat)
    ensures
        digits_value(dec_rep(n)) == n,
    decreases n,
{
    if n < 10 {
        assert(dec_rep(n).drop_last() =~= Seq::<char>::empty());
        assert(digits_value(Seq::<char>::empty()) == 0);
        assert(dec_rep(n).last() == digit_char(n));
        assert(digit_val(digit_char(n)) == n);
    } else {
        lemma_digits_value_of_rep(n / 10);
        assert(dec_rep(n).drop_last() =~= dec_rep(n / 10));
        assert(dec_rep(n).last() == digit_char(n % 10));
        assert(digit_val(digit_char(n % 10)) == n % 10);
        assert((n / 10) * 10 + n % 10 == n);
    }
}

/// `n` padded with zeros on the left to at least two digits.
pub open spec fn pad2(n: nat) -> Seq<char> {
    if n < 10 {
        seq!['0'] + dec_rep(n)
    } else {
        dec_rep(n)
    }
}

/// `n` padded with zeros on the left to at least three digits; `n` is at
/// most 999 wherever this is used.
pub open spec fn pad3(n: nat) -> Seq<char> {
    if n < 10 {
        seq!['0', '0'] + dec_rep(n)
    } else if n < 100 {
        seq!['0'] + dec_rep(n)
    } else {
        dec_rep(n)
    }
}

/// A leading zero never changes the value a digit string reads back as.
pub proof fn lemma_digits_value_zero_prefix(s: Seq<char>)
    ensures
        digits_value(seq!['0'] + s) == digits_value(s),
    decreases s.len(),
{
    if s.len() == 0 {
        assert(seq!['0'] + s =~= seq!['0']);
        assert(seq!['0'].drop_last() =~= Seq::<char>::empty());
        assert(seq!['0'].last() == '0');
        assert(digits_value(seq!['0']) == digits_value(Seq::<char>::empty()) * 10 + digit_val('0'));
    } else {
        assert((seq!['0'] + s).drop_last() =~= seq!['0'] + s.drop_last());
        assert((seq!['0'] + s).last() == s.last());
        lemma_digits_value_zero_prefix(s.drop_last());
    }
}

/// Decimal representations have the expected width, and padding tops them
/// up to it.
pub proof fn lemma_dec_rep_small(n: nat)
    ensures
        n < 10 ==> dec_rep(n).len() == 1,
        10 <= n < 100 ==> dec_rep(n).len() == 2,
        100 <= n < 1000 ==> dec_rep(n).len() == 3,
        n < 100 ==> pad2(n).len() == 2,
        n < 1000 ==> pad3(n).len() == 3,
    decreases n,
{
    if 10 <= n < 1000 {
        lemma_dec_rep_small(n / 10);
    }
}

/// Lower bounds on representation width.
pub proof fn lemma_dec_rep_len_ge(n: nat)
    ensures
        dec_rep(n).len() >= 1,
        n >= 10 ==> dec_rep(n).len() >= 2,
        n >= 100 ==> dec_rep(n).len() >= 3,
    decreases n,
{
    if n >= 10 {
        lemma_dec_rep_len_ge(n / 10);
    }
}

/// Padding never changes the value read back.
pub proof fn lemma_pad_value(n: nat)
    ensures
        digits_value(pad2(n)) == n,
        digits_value(pad3(n)) == n,
        all_digits(pad2(n)),
        all_digits(pad3(n)),
        pad2(n).len() >= 2,
        pad3(n).len() >= 3,
{
    lemma_dec_rep_digits(n);
    lemma_digits_value_of_rep(n);
    lemma_dec_rep_small(n);
    lemma_dec_rep_len_ge(n);
    if n < 10 {
        lemma_digits_value_zero_prefix(dec_rep(n));
        assert(seq!['0', '0'] + dec_rep(n) =~= seq!['0'] + (seq!['0'] + dec_rep(n)));
        lemma_digits_value_zero_prefix(seq!['0'] + dec_rep(n));
    } else if n < 100 {
        lemma_digits_value_zero_prefix(dec_rep(n));
    }
}

/// The `HH:MM:SS,mmm` form of a total-millisecond timestamp. Hours widen
/// past two digits when they must; minutes, seconds and milliseconds are
/// fixed-width.
pub open spec fn srt_time_spec(ms: nat) -> Seq<char> {
    pad2(ms / 3600000) + seq![':'] + pad2((ms % 3600000) / 60000) + seq![':'] + pad2(
        (ms % 60000) / 1000,
    ) + seq![','] + pad3(ms % 1000)
}

/// The millisecond field of every formatted timestamp lies in `[0, 999]`:
/// the text after the comma is the zero-padded decimal form of `ms % 1000`,
/// which reads back as a value of at most 999.
pub proof fn lemma_millisecond_field_bounded(ms: nat)
    ensures
        srt_time_spec(ms).len() >= 12,
        srt_time_spec(ms).subrange(
            srt_time_spec(ms).len() - 3,
            srt_time_spec(ms).len() as int,
        ) == pad3(ms % 1000),
        digits_value(pad3(ms % 1000)) == ms % 1000,
        ms % 1000 <= 999,
{
    lemma_pad_value(ms / 3600000);
    lemma_pad_value((ms % 3600000) / 60000);
    lemma_pad_value((ms % 60000) / 1000);
    lemma_pad_value(ms % 1000);
    assert(pad3(ms % 1000).len() == 3) by {
        lemma_dec_rep_small(ms % 1000);
    }
    assert(srt_time_spec(ms).subrange(
        srt_time_spec(ms).len() - 3,
        srt_time_spec(ms).len() as int,
    ) =~= pad3(ms % 1000));
}

/// A single decimal digit as text.
fn digit_str(d: u64) -> (r: &'static str)
    requires
        d < 10,
    ensures
        r@ == seq![digit_char(d as nat)],
{
    let r = if d == 0 { "0" } else if d == 1 { "1" } else if d == 2 { "2" } else if d == 3 { "3" }
    else if d == 4 { "4" } else if d == 5 { "5" } else if d == 6 { "6" } else if d == 7 { "7" }
    else if d == 8 { "8" } else { "9" };
    proof {
        reveal_strlit("0");
        reveal_strlit("1");
        reveal_strlit("2");
        reveal_strlit("3");
        reveal_strlit("4");
        reveal_strlit("5");
        reveal_strlit("6");
        reveal_strlit("7");
        reveal_strlit("8");
        reveal_strlit("9");
        assert(r@ =~= seq![digit_char(d as nat)]);
    }
    r
}

/// Decimal form of `n`, without padding.
pub fn u64_to_dec(n: u64) -> (r: String)
    ensures
        r@ == dec_rep(n as nat),
    decreases n,
{
    if n < 10 {
        digit_str(n).to_owned()
    } else {
        let mut s = u64_to_dec(n / 10);
        s.append(digit_str(n % 10));
        proof {
            assert(dec_rep((n / 10) as nat) + seq![digit_char((n % 10) as nat)]
                =~= dec_rep(n as nat));
        }
        s
    }
}

/// Decimal form of `n` padded to at least `width` digits (2 or 3 here).
fn u64_to_padded(n: u64, width: u64) -> (r: String)
    requires
        width == 2 || width == 3,
    ensures
        width == 2 ==> r@ == pad2(n as nat),
        width == 3 ==> r@ == pad3(n as nat),
{
    proof {
        reveal_strlit("0");
        reveal_strlit("00");
        lemma_dec_rep_small(n as nat);
        lemma_dec_rep_digits(n as nat);
    }
    if width == 2 {
        if n < 10 {
            let mut s = String::from_str("0");
            s.append(u64_to_dec(n).as_str());
            proof {
                assert(s@ =~= pad2(n as nat));
            }
            s
        } else {
            let s = u64_to_dec(n);
            s
        }
    } else {
        if n < 10 {
            let mut s = String::from_str("00");
            s.append(u64_to_dec(n).as_str());
            proof {
                assert("00"@ =~= seq!['0', '0']);
                assert(s@ =~= pad3(n as nat));
            }
            s
        } else if n < 100 {
            let mut s = String::from_str("0");
            s.append(u64_to_dec(n).as_str());
            proof {
                assert(s@ =~= pad3(n as nat));
            }
            s
        } else {
            let s = u64_to_dec(n);
            s
        }
    }
}

/// Format a total-millisecond timestamp as `HH:MM:SS,mmm`.
pub fn format_srt_time(ms: u64) -> (r: String)
    ensures
        r@ == srt_time_spec(ms as nat),
{
    let hours = ms / 3600000;
    let minutes = (ms % 3600000) / 60000;
    let secs = (ms % 60000) / 1000;
    let millis = ms % 1000;
    let mut s = u64_to_padded(hours, 2);
    s.append(":");
    s.append(u64_to_padded(minutes, 2).as_str());
    s.append(":");
    s.append(u64_to_padded(secs, 2).as_str());
    s.append(",");
    s.append(u64_to_padded(millis, 3).as_str());
    proof {
        reveal_strlit(":");
        reveal_strlit(",");
        assert(":"@ =~= seq![':']);
        assert(","@ =~= seq![',']);
        assert(s@ =~= srt_time_spec(ms as nat));
    }
    s
}

/// The arrow that separates the two timestamps of a cue.
pub open spec fn arrow() -> Seq<char> {
    seq![' ', '-', '-', '>', ' ']
}

/// One rendered cue: index line, timing line, text line, blank line.
pub open spec fn render_block(idx: nat, g: SegModel) -> Seq<char> {
    dec_rep(idx) + seq!['\n'] + srt_time_spec(g.start_ms) + arrow() + srt_time_spec(g.end_ms)
        + seq!['\n'] + g.text + seq!['\n', '\n']
}

/// A whole rendered document, cues numbered from `idx0`.
pub open spec fn render_doc(segs: Seq<SegModel>, idx0: nat) -> Seq<char>
    decreases segs.len(),
{
    if segs.len() == 0 {
        Seq::empty()
    } else {
        render_block(idx0, segs[0]) + render_doc(segs.drop_first(), (idx0 + 1) as nat)
    }
}

/// Render one cue block: index line, timing line, text line, blank line.
fn render_one(idx: u64, seg: &Segment) -> (r: String)
    ensures
        r@ == render_block(idx as nat, seg@),
{
    let mut block = String::new();
    block.append(u64_to_dec(idx).as_str());
    block.append("\n");
    block.append(format_srt_time(seg.start_ms).as_str());
    block.append(" --> ");
    block.append(format_srt_time(seg.end_ms).as_str());
    block.append("\n");
    block.append(seg.text.as_str());
    block.append("\n\n");
    proof {
        reveal_strlit("\n");
        reveal_strlit(" --> ");
        reveal_strlit("\n\n");
        assert("\n"@ =~= seq!['\n']);
        assert(" --> "@ =~= arrow());
        assert("\n\n"@ =~= seq!['\n', '\n']);
        assert(block@ =~= render_block(idx as nat, seg@));
    }
    block
}

/// Render segments as an SRT document, cues numbered from 1. Texts are
/// written as they stand; the callers that build segments trim them first.
pub fn render_srt(segments: &Vec<Segment>) -> (r: String)
    ensures
        r@ == render_doc(seg_models(segments@), 1),
{
    let ghost models = seg_models(segments@);
    let mut out = String::new();
    let mut i: usize = 0;
    proof {
        assert(models.skip(0) =~= models);
        assert(out@ + render_doc(models, 1) =~= render_doc(models, 1));
    }
    while i < segments.len()
        invariant
            0 <= i <= segments.len(),
            models == seg_models(segments@),
            models.len() == segments@.len(),
            out@ + render_doc(models.skip(i as int), (i + 1) as nat) == render_doc(models, 1),
        decreases segments.len() - i,
    {
        proof {
            assert(models.skip(i as int)[0] == segments@[i as int]@);
            assert(models.skip(i as int).drop_first() =~= models.skip(i + 1));
        }
        let ghost out_before = out@;
        let block = render_one((i as u64) + 1, &segments[i]);
        out.append(block.as_str());
        proof {
            let ghost bk = render_block((i + 1) as nat, models.skip(i as int)[0]);
            let ghost rest = render_doc(models.skip(i + 1), (i + 2) as nat);
            assert(render_doc(models.skip(i as int), (i + 1) as nat) == bk + rest);
            assert((out_before + bk) + rest =~= out_before + (bk + rest));
            assert(out@ + render_doc(models.skip(i + 1), (i + 2) as nat)
                == render_doc(models, 1));
        }
        i = i + 1;
    }
    proof {
        assert(models.skip(i as int) =~= Seq::<SegModel>::empty());
        assert(out@ =~= render_doc(models, 1));
    }
    out
}

/// Index of the first occurrence of `c` in `s`, or `s.len()` if absent.
pub open spec fn find_char_idx(s: Seq<char>, c: char) -> int
    decreases s.len(),
{
    if s.len() == 0 {
        0
    } else if s[0] == c {
        0
    } else {
        1 + find_char_idx(s.drop_first(), c)
    }
}

/// The first occurrence really is first: it is in range, it hits `c`, and
/// nothing before it does.
pub broadcast proof fn lemma_find_char_range(s: Seq<char>, c: char)
    ensures
        0 <= #[trigger] find_char_idx(s, c) <= s.len(),
        find_char_idx(s, c) < s.len() ==> s[find_char_idx(s, c)] == c,
        forall|k: int| 0 <= k < find_char_idx(s, c) ==> s[k] != c,
    decreases s.len(),
{
    if s.len() > 0 && s[0] != c {
        let t = s.drop_first();
        lemma_find_char_range(t, c);
        assert forall|k: int| 0 <= k < find_char_idx(s, c) implies s[k] != c by {
            if k > 0 {
                assert(t[k - 1] != c);
            }
        }
    }
}

/// If position `i` holds `c` and nothing before it does, the search finds
/// exactly `i`.
pub proof fn lemma_find_char_at(s: Seq<char>, c: char, i: int)
    requires
        0 <= i < s.len(),
        s[i] == c,
        forall|k: int| 0 <= k < i ==> s[k] != c,
    ensures
        find_char_idx(s, c) == i,
{
    lemma_find_char_range(s, c);
    let f = find_char_idx(s, c);
    if f < i {
        assert(s[f] == c);
    }
    if f > i {
        assert(s[i] != c);
    }
}

/// A parsed `HH:MM:SS,mmm` timestamp: the total milliseconds, if the text
/// is well formed, in range, and small enough to carry in 64 bits.
pub open spec fn parse_time_spec(s: Seq<char>) -> Option<nat> {
    let i = find_char_idx(s, ':');
    if i == s.len() || i == 0 || !all_digits(s.take(i)) {
        None
    } else {
        let r = s.skip(i + 1);
        if r.len() != 9 {
            None
        } else if r[2] != ':' || r[5] != ',' {
            None
        } else if !(is_digit(r[0]) && is_digit(r[1]) && is_digit(r[3]) && is_digit(r[4])
            && is_digit(r[6]) && is_digit(r[7]) && is_digit(r[8])) {
            None
        } else {
            let m = digit_val(r[0]) * 10 + digit_val(r[1]);
            let sec = digit_val(r[3]) * 10 + digit_val(r[4]);
            let mil = digit_val(r[6]) * 100 + digit_val(r[7]) * 10 + digit_val(r[8]);
            if m >= 60 || sec >= 60 {
                None
            } else {
                let total = digits_value(s.take(i)) * 3600000 + m * 60000 + sec * 1000 + mil;
                if total > 0xFFFF_FFFF_FFFF_FFFFnat {
                    None
                } else {
                    Some(total)
                }
            }
        }
    }
}

/// Reading a two-digit group back.
proof fn lemma_digits_value2(a: Seq<char>)
    requires
        a.len() == 2,
    ensures
        digits_value(a) == digit_val(a[0]) * 10 + digit_val(a[1]),
{
    reveal_with_fuel(digits_value, 4);
    assert(a.drop_last() =~= seq![a[0]]);
    assert(seq![a[0]].drop_last() =~= Seq::<char>::empty());
}

/// Reading a three-digit group back.
proof fn lemma_digits_value3(a: Seq<char>)
    requires
        a.len() == 3,
    ensures
        digits_value(a) == digit_val(a[0]) * 100 + digit_val(a[1]) * 10 + digit_val(a[2]),
{
    reveal_with_fuel(digits_value, 4);
    assert(a.drop_last() =~= seq![a[0], a[1]]);
    lemma_digits_value2(seq![a[0], a[1]]);
}

/// Characters a timestamp can contain: digits and the two separators.
pub open spec fn is_time_char(c: char) -> bool {
    is_digit(c) || c == ':' || c == ','
}

/// Every character of a formatted timestamp is a time character.
pub proof fn lemma_time_chars(ms: nat)
    ensures
        forall|k: int| 0 <= k < srt_time_spec(ms).len()
            ==> is_time_char(#[trigger] srt_time_spec(ms)[k]),
{
    lemma_pad_value(ms / 3600000);
    lemma_pad_value((ms % 3600000) / 60000);
    lemma_pad_value((ms % 60000) / 1000);
    lemma_pad_value(ms % 1000);
}

/// Formatting then parsing a timestamp gives the milliseconds back.
pub proof fn lemma_parse_time_round(ms: nat)
    requires
        ms <= 0xFFFF_FFFF_FFFF_FFFF,
    ensures
        parse_time_spec(srt_time_spec(ms)) == Some(ms),
{
    let h = ms / 3600000;
    let m = (ms % 3600000) / 60000;
    let sec = (ms % 60000) / 1000;
    let mil = ms % 1000;
    lemma_pad_value(h);
    lemma_pad_value(m);
    lemma_pad_value(sec);
    lemma_pad_value(mil);
    vstd::arithmetic::div_mod::lemma_mod_bound(ms as int, 3600000);
    vstd::arithmetic::div_mod::lemma_mod_bound(ms as int, 60000);
    vstd::arithmetic::div_mod::lemma_mod_bound(ms as int, 1000);
    vstd::arithmetic::div_mod::lemma_multiply_divide_lt((ms % 3600000) as int, 60000, 60);
    vstd::arithmetic::div_mod::lemma_multiply_divide_lt((ms % 60000) as int, 1000, 60);
    lemma_dec_rep_small(m);
    lemma_dec_rep_small(sec);
    lemma_dec_rep_small(mil);
    let s = srt_time_spec(ms);
    let pl = pad2(h).len() as int;
    assert(s[pl] == ':');
    assert forall|k: int| 0 <= k < pl implies s[k] != ':' by {
        assert(is_digit(pad2(h)[k]));
        assert(s[k] == pad2(h)[k]);
    }
    lemma_find_char_at(s, ':', pl);
    assert(s.take(pl) =~= pad2(h));
    let r = s.skip(pl + 1);
    assert(r =~= pad2(m) + seq![':'] + pad2(sec) + seq![','] + pad3(mil));
    assert(r.len() == 9);
    assert(r[0] == pad2(m)[0] && r[1] == pad2(m)[1]);
    assert(r[2] == ':');
    assert(r[3] == pad2(sec)[0] && r[4] == pad2(sec)[1]);
    assert(r[5] == ',');
    assert(r[6] == pad3(mil)[0] && r[7] == pad3(mil)[1] && r[8] == pad3(mil)[2]);
    lemma_digits_value2(pad2(m));
    lemma_digits_value2(pad2(sec));
    lemma_digits_value3(pad3(mil));
    assert(digit_val(r[0]) * 10 + digit_val(r[1]) == m);
    assert(digit_val(r[3]) * 10 + digit_val(r[4]) == sec);
    assert(digit_val(r[6]) * 100 + digit_val(r[7]) * 10 + digit_val(r[8]) == mil);
    vstd::arithmetic::div_mod::lemma_fundamental_div_mod(ms as int, 3600000);
    vstd::arithmetic::div_mod::lemma_fundamental_div_mod((ms % 3600000) as int, 60000);
    vstd::arithmetic::div_mod::lemma_mod_mod(ms as int, 60000, 60);
    vstd::arithmetic::div_mod::lemma_fundamental_div_mod((ms % 60000) as int, 1000);
    vstd::arithmetic::div_mod::lemma_mod_mod(ms as int, 1000, 60);
    assert(h * 3600000 + m * 60000 + sec * 1000 + mil == ms);
}

/// A parsed timing line `start --> end`.
pub open spec fn parse_time_line(l: Seq<char>) -> Option<(nat, nat)> {
    let sp = find_char_idx(l, ' ');
    if sp >= l.len() || sp + 5 > l.len() {
        None
    } else if l[sp + 1] != '-' || l[sp + 2] != '-' || l[sp + 3] != '>' || l[sp + 4] != ' ' {
        None
    } else {
        match (parse_time_spec(l.take(sp)), parse_time_spec(l.skip(sp + 5))) {
            (Some(a), Some(b)) => Some((a, b)),
            _ => None,
        }
    }
}

/// A parsed SRT document: the cue sequence, if the text is a well-formed
/// document of index line, timing line, one text line and a blank line per
/// cue.
pub open spec fn parse_doc_spec(s: Seq<char>) -> Option<Seq<SegModel>>
    decreases s.len(),
    via parse_doc_spec_decreases
{
    if s.len() == 0 {
        Some(Seq::empty())
    } else {
        let i1 = find_char_idx(s, '\n');
        if i1 >= s.len() || i1 == 0 || !all_digits(s.take(i1)) {
            None
        } else {
            let rest1 = s.skip(i1 + 1);
            let i2 = find_char_idx(rest1, '\n');
            if i2 >= rest1.len() {
                None
            } else {
                match parse_time_line(rest1.take(i2)) {
                    None => None,
                    Some(t) => {
                        let rest2 = rest1.skip(i2 + 1);
                        let i3 = find_char_idx(rest2, '\n');
                        if i3 >= rest2.len() || i3 == 0 {
                            None
                        } else {
                            let text = rest2.take(i3);
                            let rest3 = rest2.skip(i3 + 1);
                            if rest3.len() == 0 || rest3[0] != '\n' {
                                None
                            } else {
                                match parse_doc_spec(rest3.skip(1)) {
                                    None => None,
                                    Some(gs) => Some(
                                        seq![SegModel { start_ms: t.0, end_ms: t.1, text }] + gs,
                                    ),
                                }
                            }
                        }
                    },
                }
            }
        }
    }
}

#[via_fn]
proof fn parse_doc_spec_decreases(s: Seq<char>) {
    if s.len() > 0 {
        lemma_find_char_range(s, '\n');
        let i1 = find_char_idx(s, '\n');
        if 0 < i1 < s.len() {
            let rest1 = s.skip(i1 + 1);
            lemma_find_char_range(rest1, '\n');
            let i2 = find_char_idx(rest1, '\n');
            if i2 < rest1.len() {
                let rest2 = rest1.skip(i2 + 1);
                lemma_find_char_range(rest2, '\n');
            }
        }
    }
}

/// A segment the renderer can reproduce exactly: non-empty single-line
/// text, timestamps that fit in 64 bits.
pub open spec fn renderable(g: SegModel) -> bool {
    &&& g.text.len() > 0
    &&& forall|k: int| 0 <= k < g.text.len() ==> g.text[k] != '\n'
    &&& g.start_ms <= 0xFFFF_FFFF_FFFF_FFFF
    &&& g.end_ms <= 0xFFFF_FFFF_FFFF_FFFF
}

/// A rendered timing line parses to its two timestamps.
#[verifier::rlimit(30)]
pub proof fn lemma_parse_time_line_round(st: nat, en: nat)
    requires
        st <= 0xFFFF_FFFF_FFFF_FFFF,
        en <= 0xFFFF_FFFF_FFFF_FFFF,
    ensures
        parse_time_line(srt_time_spec(st) + arrow() + srt_time_spec(en)) == Some((st, en)),
{
    let t1 = srt_time_spec(st);
    let t2 = srt_time_spec(en);
    let tl = t1 + arrow() + t2;
    lemma_time_chars(st);
    lemma_time_chars(en);
    assert(tl[t1.len() as int] == ' ');
    assert forall|k: int| 0 <= k < t1.len() implies tl[k] != ' ' by {
        assert(tl[k] == t1[k]);
        assert(is_time_char(t1[k]));
    }
    lemma_find_char_at(tl, ' ', t1.len() as int);
    assert(tl[t1.len() + 1int] == '-' && tl[t1.len() + 2int] == '-' && tl[t1.len() + 3int] == '>'
        && tl[t1.len() + 4int] == ' ');
    assert(tl.take(t1.len() as int) =~= t1);
    assert(tl.skip(t1.len() + 5int) =~= t2);
    lemma_parse_time_round(st);
    lemma_parse_time_round(en);
}

/// Parsing peels one rendered cue off the front of a document.
#[verifier::rlimit(60)]
pub proof fn lemma_parse_block_prefix(g: SegModel, idx0: nat, tail: Seq<char>)
    requires
        renderable(g),
    ensures
        parse_doc_spec(render_block(idx0, g) + tail) == (match parse_doc_spec(tail) {
            Some(gs) => Some(seq![g] + gs),
            None => None::<Seq<SegModel>>,
        }),
{
    let s = render_block(idx0, g) + tail;
    let ip = dec_rep(idx0);
    let t1 = srt_time_spec(g.start_ms);
    let t2 = srt_time_spec(g.end_ms);
    let tl = t1 + arrow() + t2;
    assert(s =~= ip + seq!['\n'] + (tl + seq!['\n'] + (g.text + seq!['\n']
        + (seq!['\n'] + tail))));
    lemma_dec_rep_digits(idx0);
    lemma_time_chars(g.start_ms);
    lemma_time_chars(g.end_ms);

    // Index line: digits up to the first line break.
    assert(s[ip.len() as int] == '\n');
    assert forall|k: int| 0 <= k < ip.len() implies s[k] != '\n' by {
        assert(s[k] == ip[k]);
        assert(is_digit(ip[k]));
    }
    lemma_find_char_at(s, '\n', ip.len() as int);
    assert(s.take(ip.len() as int) =~= ip);

    // Timing line, ended by the second line break.
    let rest1 = s.skip(ip.len() + 1int);
    assert(rest1 =~= tl + seq!['\n'] + (g.text + seq!['\n'] + (seq!['\n'] + tail)));
    assert(rest1[tl.len() as int] == '\n');
    assert forall|k: int| 0 <= k < tl.len() implies rest1[k] != '\n' by {
        assert(rest1[k] == tl[k]);
        if k < t1.len() {
            assert(tl[k] == t1[k]);
            assert(is_time_char(t1[k]));
        } else if k < t1.len() + 5 {
            assert(tl[k] == arrow()[k - t1.len()]);
        } else {
            assert(tl[k] == t2[k - t1.len() - 5]);
            assert(is_time_char(t2[k - t1.len() - 5]));
        }
    }
    lemma_find_char_at(rest1, '\n', tl.len() as int);
    assert(rest1.take(tl.len() as int) =~= tl);
    lemma_parse_time_line_round(g.start_ms, g.end_ms);

    // Text line.
    let rest2 = rest1.skip(tl.len() + 1int);
    assert(rest2 =~= g.text + seq!['\n'] + (seq!['\n'] + tail));
    assert(rest2[g.text.len() as int] == '\n');
    assert forall|k: int| 0 <= k < g.text.len() implies rest2[k] != '\n' by {
        assert(rest2[k] == g.text[k]);
    }
    lemma_find_char_at(rest2, '\n', g.text.len() as int);
    assert(rest2.take(g.text.len() as int) =~= g.text);

    // Blank separator, then whatever follows.
    let rest3 = rest2.skip(g.text.len() + 1int);
    assert(rest3 =~= seq!['\n'] + tail);
    assert(rest3.len() > 0 && rest3[0] == '\n');
    assert(rest3.skip(1) =~= tail);
    assert(SegModel { start_ms: g.start_ms, end_ms: g.end_ms, text: g.text } == g);
}

/// The SRT round trip: a rendered document parses back to exactly the
/// segments it was rendered from, whatever the starting cue number. Holds
/// for segments whose text is non-empty and free of line breaks — texts
/// with embedded line breaks cannot be told apart from cue boundaries.
pub proof fn lemma_srt_round_trip(segs: Seq<SegModel>, idx0: nat)
    requires
        forall|j: int| 0 <= j < segs.len() ==> renderable(#[trigger] segs[j]),
    ensures
        parse_doc_spec(render_doc(segs, idx0)) == Some(segs),
    decreases segs.len(),
{
    if segs.len() == 0 {
        assert(parse_doc_spec(render_doc(segs, idx0)) == Some(Seq::<SegModel>::empty()));
        assert(segs =~= Seq::<SegModel>::empty());
    } else {
        let g = segs[0];
        let rest_doc = render_doc(segs.drop_first(), (idx0 + 1) as nat);
        assert forall|j: int| 0 <= j < segs.drop_first().len()
            implies renderable(#[trigger] segs.drop_first()[j]) by {
            assert(segs.drop_first()[j] == segs[j + 1]);
        }
        lemma_srt_round_trip(segs.drop_first(), (idx0 + 1) as nat);
        lemma_parse_block_prefix(g, idx0, rest_doc);
        assert(seq![g] + segs.drop_first() =~= segs);
    }
}

/// First occurrence of `c`, or the length when absent.
fn find_char(s: &str, c: char) -> (r: usize)
    ensures
        r as int == find_char_idx(s@, c),
        r <= s@.len(),
{
    let n = s.unicode_len();
    let mut i: usize = 0;
    while i < n
        invariant
            0 <= i <= n,
            n == s@.len(),
            forall|k: int| 0 <= k < i ==> s@[k] != c,
        decreases n - i,
    {
        if s.get_char(i) == c {
            proof {
                lemma_find_char_at(s@, c, i as int);
            }
            return i;
        }
        i = i + 1;
    }
    proof {
        lemma_find_char_range(s@, c);
    }
    n
}

/// Executable digit test.
fn is_digit_exec(c: char) -> (r: bool)
    ensures
        r == is_digit(c),
{
    c == '0' || c == '1' || c == '2' || c == '3' || c == '4' || c == '5' || c == '6' || c == '7'
        || c == '8' || c == '9'
}

/// Executable digit value.
fn digit_val_exec(c: char) -> (r: u64)
    requires
        is_digit(c),
    ensures
        r as nat == digit_val(c),
        r < 10,
{
    if c == '0' { 0 } else if c == '1' { 1 } else if c == '2' { 2 } else if c == '3' { 3 }
    else if c == '4' { 4 } else if c == '5' { 5 } else if c == '6' { 6 } else if c == '7' { 7 }
    else if c == '8' { 8 } else { 9 }
}

/// Whether every character is a digit.
fn all_digits_exec(s: &str) -> (r: bool)
    ensures
        r == all_digits(s@),
{
    let n = s.unicode_len();
    let mut i: usize = 0;
    while i < n
        invariant
            0 <= i <= n,
            n == s@.len(),
            forall|k: int| 0 <= k < i ==> is_digit(#[trigger] s@[k]),
        decreases n - i,
    {
        if !is_digit_exec(s.get_char(i)) {
            return false;
        }
        i = i + 1;
    }
    true
}

/// Longer digit strings never read back smaller.
proof fn lemma_digits_value_take_le(s: Seq<char>, m: int)
    requires
        0 <= m <= s.len(),
    ensures
        digits_value(s.take(m)) <= digits_value(s),
    decreases s.len() - m,
{
    if m < s.len() {
        lemma_digits_value_take_le(s.drop_last(), m);
        assert(s.drop_last().take(m) =~= s.take(m));
    } else {
        assert(s.take(m) =~= s);
    }
}

/// Read a digit string as a 64-bit value; refuse non-digits and values
/// past 64 bits.
fn checked_digits_value(s: &str) -> (r: Option<u64>)
    ensures
        match r {
            Some(v) => all_digits(s@) && v as nat == digits_value(s@),
            None => !all_digits(s@) || digits_value(s@) > 0xFFFF_FFFF_FFFF_FFFFnat,
        },
{
    if !all_digits_exec(s) {
        return None;
    }
    let n = s.unicode_len();
    let mut acc: u64 = 0;
    let mut i: usize = 0;
    while i < n
        invariant
            0 <= i <= n,
            n == s@.len(),
            all_digits(s@),
            acc as nat == digits_value(s@.take(i as int)),
        decreases n - i,
    {
        let d = digit_val_exec(s.get_char(i));
        proof {
            assert(s@.take(i + 1).drop_last() =~= s@.take(i as int));
            assert(s@.take(i + 1).last() == s@[i as int]);
        }
        if acc > 0xFFFF_FFFF_FFFF_FFFF / 10 || (acc == 0xFFFF_FFFF_FFFF_FFFF / 10 && d > 5) {
            proof {
                lemma_digits_value_take_le(s@, i + 1);
            }
            return None;
        }
        acc = acc * 10 + d;
        i = i + 1;
    }
    proof {
        assert(s@.take(n as int) =~= s@);
    }
    Some(acc)
}

/// Parse one `HH:MM:SS,mmm` timestamp.
pub fn parse_srt_time(s: &str) -> (r: Option<u64>)
    ensures
        match r {
            Some(v) => parse_time_spec(s@) == Some(v as nat),
            None => parse_time_spec(s@) is None,
        },
{
    let n = s.unicode_len();
    let i = find_char(s, ':');
    if i == n || i == 0 {
        return None;
    }
    let hours_part = s.substring_char(0, i);
    proof {
        assert(hours_part@ =~= s@.take(i as int));
    }
    let hv = match checked_digits_value(hours_part) {
        Some(hv) => hv,
        None => {
            return None;
        },
    };
    if n - (i + 1) != 9 {
        proof {
            assert(s@.skip(i + 1int).len() != 9);
        }
        return None;
    }
    proof {
        assert forall|j: int| 0 <= j < 9 implies #[trigger] s@.skip(i + 1int)[j] == s@[i + 1 + j]
            by {}
    }
    if s.get_char(i + 3) != ':' || s.get_char(i + 6) != ',' {
        return None;
    }
    let c0 = s.get_char(i + 1);
    let c1 = s.get_char(i + 2);
    let c3 = s.get_char(i + 4);
    let c4 = s.get_char(i + 5);
    let c6 = s.get_char(i + 7);
    let c7 = s.get_char(i + 8);
    let c8 = s.get_char(i + 9);
    if !(is_digit_exec(c0) && is_digit_exec(c1) && is_digit_exec(c3) && is_digit_exec(c4)
        && is_digit_exec(c6) && is_digit_exec(c7) && is_digit_exec(c8)) {
        return None;
    }
    let m = digit_val_exec(c0) * 10 + digit_val_exec(c1);
    let sec = digit_val_exec(c3) * 10 + digit_val_exec(c4);
    let mil = digit_val_exec(c6) * 100 + digit_val_exec(c7) * 10 + digit_val_exec(c8);
    if m >= 60 || sec >= 60 {
        return None;
    }
    if hv > (0xFFFF_FFFF_FFFF_FFFF - m * 60000 - sec * 1000 - mil) / 3600000 {
        proof {
            let ghost h = digits_value(s@.take(i as int));
            assert(h * 3600000 + (m * 60000 + sec * 1000 + mil) > 0xFFFF_FFFF_FFFF_FFFFnat)
                by (nonlinear_arith)
                requires
                    h == hv as nat,
                    hv > (0xFFFF_FFFF_FFFF_FFFF - m * 60000 - sec * 1000 - mil) / 3600000,
                    m < 60 && sec < 60 && mil < 1000,
            ;
        }
        return None;
    }
    let total = hv * 3600000 + m * 60000 + sec * 1000 + mil;
    Some(total)
}

/// Parse one `start --> end` timing line.
fn parse_time_line_exec(l: &str) -> (r: Option<(u64, u64)>)
    ensures
        match r {
            Some(t) => parse_time_line(l@) == Some((t.0 as nat, t.1 as nat)),
            None => parse_time_line(l@) is None,
        },
{
    let n = l.unicode_len();
    let sp = find_char(l, ' ');
    if sp == n || n - sp < 5 {
        return None;
    }
    if l.get_char(sp + 1) != '-' || l.get_char(sp + 2) != '-' || l.get_char(sp + 3) != '>'
        || l.get_char(sp + 4) != ' ' {
        return None;
    }
    let start_part = l.substring_char(0, sp);
    let end_part = l.substring_char(sp + 5, n);
    proof {
        assert(start_part@ =~= l@.take(sp as int));
        assert(end_part@ =~= l@.skip(sp + 5int));
    }
    match (parse_srt_time(start_part), parse_srt_time(end_part)) {
        (Some(a), Some(b)) => Some((a, b)),
        _ => None,
    }
}

/// Parse a whole SRT document back into segments, as
/// [`parse_doc_spec`] describes: the inverse of [`render_srt`] on
/// everything the renderer can produce.
pub fn parse_srt(s: &str) -> (r: Option<Vec<Segment>>)
    ensures
        match r {
            Some(v) => parse_doc_spec(s@) == Some(seg_models(v@)),
            None => parse_doc_spec(s@) is None,
        },
    decreases s@.len(),
{
    let n = s.unicode_len();
    if n == 0 {
        let v: Vec<Segment> = Vec::new();
        proof {
            assert(seg_models(v@) =~= Seq::<SegModel>::empty());
        }
        return Some(v);
    }
    let i1 = find_char(s, '\n');
    if i1 == n || i1 == 0 {
        return None;
    }
    let index_line = s.substring_char(0, i1);
    proof {
        assert(index_line@ =~= s@.take(i1 as int));
    }
    if !all_digits_exec(index_line) {
        return None;
    }
    let rest1 = s.substring_char(i1 + 1, n);
    proof {
        assert(rest1@ =~= s@.skip(i1 + 1int));
    }
    let n1 = rest1.unicode_len();
    let i2 = find_char(rest1, '\n');
    if i2 == n1 {
        return None;
    }
    let time_line = rest1.substring_char(0, i2);
    proof {
        assert(time_line@ =~= rest1@.take(i2 as int));
    }
    let times = match parse_time_line_exec(time_line) {
        Some(t) => t,
        None => {
            return None;
        },
    };
    let rest2 = rest1.substring_char(i2 + 1, n1);
    proof {
        assert(rest2@ =~= rest1@.skip(i2 + 1int));
    }
    let n2 = rest2.unicode_len();
    let i3 = find_char(rest2, '\n');
    if i3 == n2 || i3 == 0 {
        return None;
    }
    let text = rest2.substring_char(0, i3);
    proof {
        assert(text@ =~= rest2@.take(i3 as int));
    }
    let rest3 = rest2.substring_char(i3 + 1, n2);
    proof {
        assert(rest3@ =~= rest2@.skip(i3 + 1int));
    }
    if rest3.unicode_len() == 0 || rest3.get_char(0) != '\n' {
        return None;
    }
    let tail = rest3.substring_char(1, rest3.unicode_len());
    proof {
        assert(tail@ =~= rest3@.skip(1));
    }
    match parse_srt(tail) {
        Some(mut v) => {
            let seg = Segment { start_ms: times.0, end_ms: times.1, text: text.to_owned() };
            let ghost tail_models = seg_models(v@);
            v.insert(0, seg);
            proof {
                assert(seg@ == (SegModel {
                    start_ms: times.0 as nat,
                    end_ms: times.1 as nat,
                    text: rest2@.take(i3 as int),
                }));
                assert(seg_models(v@) =~= seq![seg@] + tail_models);
            }
            Some(v)
        },
        None => None,
    }
}

} // verus!
