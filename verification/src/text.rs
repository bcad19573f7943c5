//! Character-level text helpers shared by the decoders.

use vstd::prelude::*;

verus! {

/// `char::is_control`: the Unicode general category Cc (C0 and C1 controls).
pub open spec fn is_control(c: char) -> bool {
    (c as u32) <= 0x1F || (0x7F <= (c as u32) && (c as u32) <= 0x9F)
}

/// `char::is_whitespace`: the Unicode `White_Space` property.
pub open spec fn is_ws(c: char) -> bool {
    let u = c as u32;
    ||| 0x09 <= u <= 0x0D
    ||| u == 0x20
    ||| u == 0x85
    ||| u == 0xA0
    ||| u == 0x1680
    ||| 0x2000 <= u <= 0x200A
    ||| u == 0x2028
    ||| u == 0x2029
    ||| u == 0x202F
    ||| u == 0x205F
    ||| u == 0x3000
}

pub fn char_is_control(c: char) -> (r: bool)
    ensures
        r == is_control(c),
{
    let u = c as u32;
    u <= 0x1F || (0x7F <= u && u <= 0x9F)
}

pub fn char_is_ws(c: char) -> (r: bool)
    ensures
        r == is_ws(c),
{
    let u = c as u32;
    (0x09 <= u && u <= 0x0D) || u == 0x20 || u == 0x85 || u == 0xA0 || u == 0x1680 || (0x2000
        <= u && u <= 0x200A) || u == 0x2028 || u == 0x2029 || u == 0x202F || u == 0x205F || u
        == 0x3000
}

/// Appends one character to a `String` (`String::push`).
#[verifier::external_body]
pub(crate) fn string_push(s: &mut String, c: char)
    ensures
        final(s)@ == old(s)@.push(c),
{
    s.push(c);
}

/// The characters of a string slice, in order.
pub fn chars_of(s: &str) -> (v: Vec<char>)
    ensures
        v@ == s@,
{
    broadcast use vstd::string::group_string_axioms;
    let mut v: Vec<char> = Vec::new();
    for c in it: s.chars()
        invariant
            v@ == it.seq().take(it.index() as int),
            it.seq() == s@,
    {
        v.push(c);
    }
    v
}


/// The characters of `v` as a `String`.
pub fn string_of(v: &[char]) -> (s: String)
    ensures
        s@ == v@,
{
    let mut s = String::new();
    let mut i: usize = 0;
    while i < v.len()
        invariant
            i <= v.len(),
            s@ == v@.take(i as int),
        decreases v.len() - i,
    {
        string_push(&mut s, v[i]);
        i = i + 1;
        assert(s@ == v@.take(i as int));
    }
    assert(v@.take(v.len() as int) == v@);
    s
}

/// Appends all of `src` to `out`.
pub fn push_all(out: &mut Vec<char>, src: &[char])
    ensures
        final(out)@ == old(out)@ + src@,
{
    let mut i: usize = 0;
    while i < src.len()
        invariant
            i <= src.len(),
            out@ == old(out)@ + src@.take(i as int),
        decreases src.len() - i,
    {
        out.push(src[i]);
        i = i + 1;
        assert(out@ == old(out)@ + src@.take(i as int));
    }
    assert(src@.take(src.len() as int) == src@);
}

/// Appends the characters of a string slice to `out`.
pub fn push_str(out: &mut Vec<char>, s: &str)
    ensures
        final(out)@ == old(out)@ + s@,
{
    let v = chars_of(s);
    push_all(out, v.as_slice());
}

/// A copy of `v[a..b]`.
pub fn copy_range<T: Copy>(v: &[T], a: usize, b: usize) -> (r: Vec<T>)
    requires
        a <= b <= v@.len(),
    ensures
        r@ == v@.subrange(a as int, b as int),
{
    let mut r: Vec<T> = Vec::new();
    let mut i: usize = a;
    while i < b
        invariant
            a <= i <= b,
            b <= v@.len(),
            r@ == v@.subrange(a as int, i as int),
        decreases b - i,
    {
        r.push(v[i]);
        i = i + 1;
        assert(r@ == v@.subrange(a as int, i as int));
    }
    r
}

/// First index at or after `i` that is not whitespace (or the length).
pub open spec fn skip_ws(s: Seq<char>, i: int) -> int
    decreases s.len() - i,
{
    if 0 <= i < s.len() && is_ws(s[i]) {
        skip_ws(s, i + 1)
    } else {
        i
    }
}

/// Walking back from `j`, the end of the text once trailing whitespace
/// after `lo` is dropped.
pub open spec fn back_ws(s: Seq<char>, j: int, lo: int) -> int
    decreases j - lo,
{
    if lo < j && j <= s.len() && is_ws(s[j - 1]) {
        back_ws(s, j - 1, lo)
    } else {
        j
    }
}

/// `str::trim`: the text without leading and trailing whitespace.
pub open spec fn trim(s: Seq<char>) -> Seq<char> {
    let a = skip_ws(s, 0);
    s.subrange(a, back_ws(s, s.len() as int, a))
}

pub proof fn lemma_skip_ws(s: Seq<char>, i: int)
    requires
        0 <= i <= s.len(),
    ensures
        i <= skip_ws(s, i) <= s.len(),
        forall|k: int| i <= k < skip_ws(s, i) ==> is_ws(#[trigger] s[k]),
        skip_ws(s, i) < s.len() ==> !is_ws(s[skip_ws(s, i)]),
    decreases s.len() - i,
{
    if i < s.len() && is_ws(s[i]) {
        lemma_skip_ws(s, i + 1);
    }
}

pub proof fn lemma_back_ws(s: Seq<char>, j: int, lo: int)
    requires
        0 <= lo <= j <= s.len(),
    ensures
        lo <= back_ws(s, j, lo) <= j,
        forall|k: int| back_ws(s, j, lo) <= k < j ==> is_ws(#[trigger] s[k]),
        back_ws(s, j, lo) > lo ==> !is_ws(s[back_ws(s, j, lo) - 1]),
    decreases j - lo,
{
    if lo < j && is_ws(s[j - 1]) {
        lemma_back_ws(s, j - 1, lo);
    }
}

/// The trimmed text is a piece of the input with no whitespace at either end.
pub proof fn lemma_trim(s: Seq<char>)
    ensures
        trim(s).len() > 0 ==> !is_ws(trim(s)[0]) && !is_ws(trim(s)[trim(s).len() - 1]),
        trim(s).len() <= s.len(),
        0 <= skip_ws(s, 0) <= s.len() - trim(s).len(),
        forall|k: int| 0 <= k < trim(s).len() ==> #[trigger] trim(s)[k] == s[k + skip_ws(s, 0)],
{
    let a = skip_ws(s, 0);
    lemma_skip_ws(s, 0);
    lemma_back_ws(s, s.len() as int, a);
    let b = back_ws(s, s.len() as int, a);
    if b > a {
        assert(trim(s)[0] == s[a]);
        assert(trim(s)[trim(s).len() - 1] == s[b - 1]);
    }
}

/// `str::trim` on a character vector.
pub fn trim_chars(s: &[char]) -> (r: Vec<char>)
    ensures
        r@ == trim(s@),
{
    let mut a: usize = 0;
    while a < s.len() && char_is_ws(s[a])
        invariant
            a <= s.len(),
            skip_ws(s@, a as int) == skip_ws(s@, 0),
        decreases s.len() - a,
    {
        a = a + 1;
    }
    let mut b: usize = s.len();
    while a < b && char_is_ws(s[b - 1])
        invariant
            a <= b <= s.len(),
            back_ws(s@, b as int, a as int) == back_ws(s@, s@.len() as int, a as int),
        decreases b - a,
    {
        b = b - 1;
    }
    copy_range(s, a, b)
}

/// What one payload byte shows as: its Latin-1 character, with every
/// control character turned into a space.
pub open spec fn shown_byte(b: u8) -> char {
    if is_control(b as char) {
        ' '
    } else {
        b as char
    }
}

pub open spec fn shown_bytes(b: Seq<u8>) -> Seq<char> {
    Seq::new(b.len(), |i: int| shown_byte(b[i]))
}

/// Display text of raw bytes: one Latin-1 character per byte, control
/// characters (C0 and C1) as spaces, trimmed.
pub open spec fn lossy_spec(b: Seq<u8>) -> Seq<char> {
    trim(shown_bytes(b))
}

pub fn lossy(b: &[u8]) -> (r: Vec<char>)
    ensures
        r@ == lossy_spec(b@),
{
    let mut v: Vec<char> = Vec::new();
    let mut i: usize = 0;
    while i < b.len()
        invariant
            i <= b.len(),
            v@ == shown_bytes(b@).take(i as int),
        decreases b.len() - i,
    {
        let c = b[i] as char;
        let shown = if char_is_control(c) {
            ' '
        } else {
            c
        };
        v.push(shown);
        i = i + 1;
        assert(v@ == shown_bytes(b@).take(i as int));
    }
    assert(shown_bytes(b@).take(b.len() as int) == shown_bytes(b@));
    trim_chars(v.as_slice())
}

/// Text cut to `max` characters: unchanged when it fits, otherwise the
/// first `max - 1` characters (none when `max` is 0) followed by an ellipsis.
pub open spec fn truncate_spec(s: Seq<char>, max: nat) -> Seq<char> {
    if s.len() <= max {
        s
    } else {
        s.take(if max >= 1 { max - 1 } else { 0 }).push('…')
    }
}

pub fn truncate(s: &[char], max: usize) -> (r: Vec<char>)
    ensures
        r@ == truncate_spec(s@, max as nat),
{
    if s.len() <= max {
        copy_range(s, 0, s.len())
    } else {
        let keep = if max >= 1 {
            max - 1
        } else {
            0
        };
        let mut r = copy_range(s, 0, keep);
        r.push('…');
        r
    }
}

/// `n` spaces.
pub open spec fn spaces(n: int) -> Seq<char> {
    Seq::new(if n > 0 { n as nat } else { 0 }, |i: int| ' ')
}

/// `format!("{:<w}")`: left-aligned in a column of `w` characters.
pub open spec fn pad_right(s: Seq<char>, w: nat) -> Seq<char> {
    s + spaces(w - s.len())
}

/// `format!("{:>w}")`: right-aligned in a column of `w` characters.
pub open spec fn pad_left(s: Seq<char>, w: nat) -> Seq<char> {
    spaces(w - s.len()) + s
}

pub fn push_spaces(out: &mut Vec<char>, n: usize)
    ensures
        final(out)@ == old(out)@ + spaces(n as int),
{
    let mut i: usize = 0;
    while i < n
        invariant
            i <= n,
            out@ == old(out)@ + spaces(i as int),
        decreases n - i,
    {
        out.push(' ');
        i = i + 1;
        assert(out@ == old(out)@ + spaces(i as int));
    }
}

pub fn push_padded_right(out: &mut Vec<char>, s: &[char], w: usize)
    ensures
        final(out)@ == old(out)@ + pad_right(s@, w as nat),
{
    push_all(out, s);
    let n = if w > s.len() {
        w - s.len()
    } else {
        0
    };
    push_spaces(out, n);
    assert(spaces(n as int) == spaces(w - s@.len()));
}

pub fn push_padded_left(out: &mut Vec<char>, s: &[char], w: usize)
    ensures
        final(out)@ == old(out)@ + pad_left(s@, w as nat),
{
    let n = if w > s.len() {
        w - s.len()
    } else {
        0
    };
    push_spaces(out, n);
    assert(spaces(n as int) == spaces(w - s@.len()));
    push_all(out, s);
}

/// The ASCII digit for `d < 10`.
pub open spec fn digit_char(d: int) -> char {
    (d + 48) as char
}

/// Decimal digits of a natural number (`format!("{}")`).
pub open spec fn nat_chars(n: nat) -> Seq<char>
    decreases n,
{
    if n < 10 {
        seq![digit_char(n as int)]
    } else {
        nat_chars(n / 10).push(digit_char((n % 10) as int))
    }
}

/// `format!("{}")` of an integer.
pub open spec fn int_chars(v: int) -> Seq<char> {
    if v < 0 {
        seq!['-'] + nat_chars((-v) as nat)
    } else {
        nat_chars(v as nat)
    }
}

/// `format!("{:0w}")` of an integer: the sign, then zeros up to width `w`,
/// then the digits.
pub open spec fn int_chars_zero_pad(v: int, w: nat) -> Seq<char> {
    let sign: Seq<char> = if v < 0 { seq!['-'] } else { seq![] };
    let digits = nat_chars((if v < 0 { -v } else { v }) as nat);
    sign + Seq::new(
        if w > sign.len() + digits.len() { (w - sign.len() - digits.len()) as nat } else { 0 },
        |i: int| '0',
    ) + digits
}

pub fn push_nat(out: &mut Vec<char>, n: u64)
    ensures
        final(out)@ == old(out)@ + nat_chars(n as nat),
    decreases n,
{
    if n >= 10 {
        push_nat(out, n / 10);
    }
    let d = (n % 10) as u8;
    out.push((d + 48) as char);
}

pub fn push_int(out: &mut Vec<char>, v: i64)
    requires
        v > i64::MIN,
    ensures
        final(out)@ == old(out)@ + int_chars(v as int),
{
    if v < 0 {
        out.push('-');
        push_nat(out, (0 - v) as u64);
    } else {
        push_nat(out, v as u64);
    }
}

pub fn push_int_zero_pad(out: &mut Vec<char>, v: i64, w: usize)
    requires
        v > i64::MIN,
    ensures
        final(out)@ == old(out)@ + int_chars_zero_pad(v as int, w as nat),
{
    let mut digits: Vec<char> = Vec::new();
    let sign_len: usize = if v < 0 {
        1
    } else {
        0
    };
    if v < 0 {
        push_nat(&mut digits, (0 - v) as u64);
    } else {
        push_nat(&mut digits, v as u64);
    }
    assert(digits@ == nat_chars((if v < 0 { -(v as int) } else { v as int }) as nat));
    let ghost sign: Seq<char> = if v < 0 { seq!['-'] } else { seq![] };
    if v < 0 {
        out.push('-');
    }
    assert(out@ == old(out)@ + sign);
    let zeros: usize = if w > sign_len && w - sign_len > digits.len() {
        w - sign_len - digits.len()
    } else {
        0
    };
    let ghost before = out@;
    let mut i: usize = 0;
    while i < zeros
        invariant
            i <= zeros,
            out@ == before + Seq::new(i as nat, |k: int| '0'),
        decreases zeros - i,
    {
        out.push('0');
        i = i + 1;
        assert(out@ == before + Seq::new(i as nat, |k: int| '0'));
    }
    push_all(out, digits.as_slice());
    assert(Seq::new(zeros as nat, |k: int| '0') == Seq::new(
        if w > sign.len() + digits@.len() { (w - sign.len() - digits@.len()) as nat } else { 0 },
        |k: int| '0',
    ));
}


/// The pieces joined by `sep` (`[..].join(sep)`).
pub open spec fn join_spec(parts: Seq<Seq<char>>, sep: Seq<char>) -> Seq<char>
    decreases parts.len(),
{
    if parts.len() == 0 {
        seq![]
    } else if parts.len() == 1 {
        parts[0]
    } else {
        join_spec(parts.drop_last(), sep) + sep + parts.last()
    }
}

pub open spec fn views(parts: Seq<Vec<char>>) -> Seq<Seq<char>> {
    Seq::new(parts.len(), |i: int| parts[i]@)
}

pub fn join(parts: &Vec<Vec<char>>, sep: &[char]) -> (r: Vec<char>)
    ensures
        r@ == join_spec(views(parts@), sep@),
{
    let mut r: Vec<char> = Vec::new();
    let mut i: usize = 0;
    while i < parts.len()
        invariant
            i <= parts.len(),
            r@ == join_spec(views(parts@).take(i as int), sep@),
        decreases parts.len() - i,
    {
        let ghost before = views(parts@).take(i as int);
        if i > 0 {
            push_all(&mut r, sep);
        }
        push_all(&mut r, parts[i].as_slice());
        i = i + 1;
        assert(views(parts@).take(i as int).drop_last() == before);
        assert(views(parts@).take(i as int).last() == parts@[i - 1]@);
        if i == 1 {
            assert(r@ == parts@[0]@);
        }
    }
    assert(views(parts@).take(parts.len() as int) == views(parts@));
    r
}

/// No character of the text is a control character.
pub open spec fn no_controls(s: Seq<char>) -> bool {
    forall|i: int| 0 <= i < s.len() ==> !is_control(#[trigger] s[i])
}


/// The UTF-8 encoding of the characters.
pub fn utf8_of(v: &[char]) -> (r: Vec<u8>)
    ensures
        r@ == vstd::utf8::encode_utf8(v@),
{
    let st = string_of(v);
    let b = st.as_str().as_bytes();
    copy_range(b, 0, b.len())
}

/// First index at or after `k` holding `c`.
pub open spec fn find_char(s: Seq<char>, c: char, k: int) -> Option<int>
    decreases s.len() - k,
{
    if 0 <= k < s.len() {
        if s[k] == c {
            Some(k)
        } else {
            find_char(s, c, k + 1)
        }
    } else {
        None
    }
}

pub fn find_char_exec(s: &[char], c: char) -> (r: Option<usize>)
    ensures
        match r {
            Some(k) => find_char(s@, c, 0) == Some(k as int) && k < s@.len() && s@[k as int] == c,
            None => find_char(s@, c, 0) is None,
        },
{
    let mut k: usize = 0;
    while k < s.len()
        invariant
            k <= s@.len(),
            find_char(s@, c, k as int) == find_char(s@, c, 0),
        decreases s.len() - k,
    {
        if s[k] == c {
            return Some(k);
        }
        k = k + 1;
    }
    None
}


pub proof fn lemma_no_controls_concat(a: Seq<char>, b: Seq<char>)
    requires
        no_controls(a),
        no_controls(b),
    ensures
        no_controls(a + b),
{
    assert forall|i: int| 0 <= i < (a + b).len() implies !is_control(#[trigger] (a + b)[i]) by {
        if i < a.len() {
            assert((a + b)[i] == a[i]);
        } else {
            assert((a + b)[i] == b[i - a.len()]);
        }
    }
}

pub proof fn lemma_no_controls_subrange(s: Seq<char>, a: int, b: int)
    requires
        no_controls(s),
        0 <= a <= b <= s.len(),
    ensures
        no_controls(s.subrange(a, b)),
{
    assert forall|i: int| 0 <= i < b - a implies !is_control(#[trigger] s.subrange(a, b)[i]) by {
        assert(s.subrange(a, b)[i] == s[i + a]);
    }
}

pub proof fn lemma_no_controls_trim(s: Seq<char>)
    requires
        no_controls(s),
    ensures
        no_controls(trim(s)),
{
    lemma_trim(s);
    assert forall|k: int| 0 <= k < trim(s).len() implies !is_control(#[trigger] trim(s)[k]) by {
        assert(trim(s)[k] == s[k + skip_ws(s, 0)]);
    }
}

/// Display text never holds a control character, so no payload byte can
/// move the cursor or otherwise drive the terminal.
pub proof fn lossy_has_no_controls(b: Seq<u8>)
    ensures
        no_controls(lossy_spec(b)),
        forall|i: int| 0 <= i < lossy_spec(b).len() ==> (#[trigger] lossy_spec(b)[i] as u32) <= 0xFF,
{
    let s = shown_bytes(b);
    assert forall|i: int| 0 <= i < s.len() implies !is_control(#[trigger] s[i]) && (s[i] as u32) <= 0xFF by {
        assert(s[i] == shown_byte(b[i]));
    }
    lemma_no_controls_trim(s);
    lemma_trim(s);
    assert forall|i: int| 0 <= i < lossy_spec(b).len() implies (#[trigger] lossy_spec(b)[i] as u32) <= 0xFF by {
        assert(lossy_spec(b)[i] == s[i + skip_ws(s, 0)]);
    }
}

pub proof fn lemma_nat_chars_digits(n: nat)
    ensures
        forall|i: int| 0 <= i < nat_chars(n).len() ==> '0' <= #[trigger] nat_chars(n)[i] <= '9',
        no_controls(nat_chars(n)),
    decreases n,
{
    if n >= 10 {
        lemma_nat_chars_digits(n / 10);
        let t = nat_chars(n / 10);
        assert forall|i: int| 0 <= i < nat_chars(n).len() implies '0' <= #[trigger] nat_chars(n)[i] <= '9' by {
            if i < t.len() {
                assert(nat_chars(n)[i] == t[i]);
            }
        }
    }
}

pub proof fn lemma_int_chars_clean(v: int, w: nat)
    ensures
        no_controls(int_chars(v)),
        no_controls(int_chars_zero_pad(v, w)),
{
    let m = (if v < 0 { -v } else { v }) as nat;
    lemma_nat_chars_digits(m);
    let sign: Seq<char> = if v < 0 { seq!['-'] } else { seq![] };
    let d = nat_chars(m);
    let zeros = Seq::new(
        if w > sign.len() + d.len() { (w - sign.len() - d.len()) as nat } else { 0 },
        |i: int| '0',
    );
    lemma_no_controls_concat(sign, d);
    lemma_no_controls_concat(sign, zeros);
    lemma_no_controls_concat(sign + zeros, d);
    if v < 0 {
        assert(int_chars(v) == sign + d);
    } else {
        assert(int_chars(v) == d);
    }
}

pub proof fn lemma_join_clean(parts: Seq<Seq<char>>, sep: Seq<char>)
    requires
        no_controls(sep),
        forall|i: int| 0 <= i < parts.len() ==> no_controls(#[trigger] parts[i]),
    ensures
        no_controls(join_spec(parts, sep)),
    decreases parts.len(),
{
    if parts.len() == 0 {
    } else if parts.len() == 1 {
    } else {
        let init = parts.drop_last();
        assert forall|i: int| 0 <= i < init.len() implies no_controls(#[trigger] init[i]) by {
            assert(init[i] == parts[i]);
        }
        lemma_join_clean(init, sep);
        lemma_no_controls_concat(join_spec(init, sep), sep);
        lemma_no_controls_concat(join_spec(init, sep) + sep, parts.last());
    }
}

/// A cut text is never longer than the column it is cut for.
pub proof fn truncate_fits(s: Seq<char>, max: nat)
    requires
        max >= 1,
    ensures
        truncate_spec(s, max).len() <= max,
        s.len() <= max ==> truncate_spec(s, max) == s,
        s.len() > max ==> truncate_spec(s, max).len() == max && truncate_spec(s, max).last() == '…',
{
}


/// What `str::to_uppercase` gives for a text (the Unicode uppercase mapping).
pub uninterp spec fn uppercase(s: Seq<char>) -> Seq<char>;

/// What `str::to_lowercase` gives for a text (the Unicode lowercase mapping).
pub uninterp spec fn lowercase(s: Seq<char>) -> Seq<char>;

/// `str::to_uppercase`: the result is the uppercase mapping of the argument,
/// the same text for the same argument. Every character maps to one or more
/// characters (`char::to_uppercase` yields at least one), so the result is
/// empty exactly when the argument is.
#[verifier::external_body]
pub(crate) fn to_upper(s: &str) -> (r: String)
    ensures
        r@ == uppercase(s@),
        r@.len() == 0 <==> s@.len() == 0,
{
    s.to_uppercase()
}

/// `str::to_lowercase`: the result is the lowercase mapping of the argument,
/// the same text for the same argument. Every character maps to one or more
/// characters (`char::to_lowercase` yields at least one), so the result is
/// empty exactly when the argument is.
#[verifier::external_body]
pub(crate) fn to_lower(s: &str) -> (r: String)
    ensures
        r@ == lowercase(s@),
        r@.len() == 0 <==> s@.len() == 0,
{
    s.to_lowercase()
}

/// Whether the characters equal those of a string slice.
pub fn same_text(v: &[char], s: &str) -> (r: bool)
    ensures
        r == (v@ == s@),
{
    let w = chars_of(s);
    if v.len() != w.len() {
        return false;
    }
    let mut i: usize = 0;
    while i < v.len()
        invariant
            i <= v@.len(),
            v@.len() == w@.len(),
            w@ == s@,
            forall|k: int| 0 <= k < i ==> v@[k] == w@[k],
        decreases v.len() - i,
    {
        if v[i] != w[i] {
            assert(v@[i as int] != s@[i as int]);
            return false;
        }
        i = i + 1;
    }
    assert(v@ =~= w@);
    true
}

/// `needle` occurs in `hay` at `i`.
pub open spec fn occurs_at(hay: Seq<char>, needle: Seq<char>, i: int) -> bool {
    0 <= i && i + needle.len() <= hay.len() && hay.subrange(i, i + needle.len()) == needle
}

/// `str::contains` for a text pattern.
pub open spec fn contains_spec(hay: Seq<char>, needle: Seq<char>) -> bool {
    exists|i: int| occurs_at(hay, needle, i)
}

/// `str::starts_with` for a text pattern.
pub open spec fn starts_with_spec(hay: Seq<char>, prefix: Seq<char>) -> bool {
    occurs_at(hay, prefix, 0)
}

fn matches_at(hay: &[char], needle: &[char], i: usize) -> (r: bool)
    requires
        i + needle@.len() <= hay@.len(),
    ensures
        r == occurs_at(hay@, needle@, i as int),
{
    let mut k: usize = 0;
    while k < needle.len()
        invariant
            k <= needle@.len(),
            i + needle@.len() <= hay@.len(),
            forall|j: int| 0 <= j < k ==> hay@[i + j] == needle@[j],
        decreases needle.len() - k,
    {
        assert(i + k < hay.len());
        if hay[i + k] != needle[k] {
            assert(hay@.subrange(i as int, i + needle@.len())[k as int] != needle@[k as int]);
            return false;
        }
        k = k + 1;
    }
    assert(hay@.subrange(i as int, i + needle@.len()) =~= needle@);
    true
}

pub fn contains(hay: &[char], needle: &[char]) -> (r: bool)
    ensures
        r == contains_spec(hay@, needle@),
{
    if needle.len() > hay.len() {
        return false;
    }
    let last = hay.len() - needle.len();
    let mut i: usize = 0;
    loop
        invariant
            last == hay@.len() - needle@.len(),
            i <= last,
            forall|j: int| 0 <= j < i ==> !occurs_at(hay@, needle@, j),
        decreases last - i,
    {
        if matches_at(hay, needle, i) {
            return true;
        }
        if i == last {
            assert forall|j: int| !occurs_at(hay@, needle@, j) by {
                if 0 <= j < i {
                }
            }
            return false;
        }
        i = i + 1;
    }
}

pub fn starts_with(hay: &[char], prefix: &[char]) -> (r: bool)
    ensures
        r == starts_with_spec(hay@, prefix@),
{
    if prefix.len() > hay.len() {
        false
    } else {
        matches_at(hay, prefix, 0)
    }
}

} // verus!
