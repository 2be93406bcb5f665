use vstd::prelude::*;

verus! {

/// Red, green, blue and alpha channels, each `0..=255`.
pub type Rgba8 = (u8, u8, u8, u8);

/// The colors that can be written by name.
#[derive(Debug, Clone, Copy, PartialEq, Eq, Structural)]
pub enum NamedColor {
    White,
    Black,
    Red,
    Green,
    Blue,
    Yellow,
    Cyan,
    Magenta,
    Gray,
    DarkGray,
    LightGray,
    Orange,
    Purple,
    Brown,
    Pink,
    Gold,
    Transparent,
}

/// What a color string denotes: explicit channels or a named color.
#[derive(Debug, Clone, Copy, PartialEq, Eq, Structural)]
pub enum ColorSpec {
    Rgba(u8, u8, u8, u8),
    Named(NamedColor),
}

/// Why a color string was rejected.
#[derive(Debug, Clone, Copy, PartialEq, Eq, Structural)]
pub enum ColorParseError {
    /// Neither a channel tuple nor a known color name.
    UnknownName,
    /// Looked like a hex color but is not one.
    InvalidHex,
}

/// Character classes that the parser strips from the ends of a string.
#[derive(Debug, Clone, Copy, PartialEq, Eq, Structural)]
pub enum CharClass {
    /// Unicode `White_Space`, as `char::is_whitespace` defines it.
    Whitespace,
    /// `(` and `)`.
    Paren,
    /// `#`.
    Hash,
}

/// Unicode `White_Space`: the characters for which `char::is_whitespace`
/// holds.
pub open spec fn is_whitespace(c: char) -> bool {
    let v = c as u32;
    (0x9 <= v <= 0xD) || v == 0x20 || v == 0x85 || v == 0xA0 || v == 0x1680 || (0x2000 <= v
        <= 0x200A) || v == 0x2028 || v == 0x2029 || v == 0x202F || v == 0x205F || v == 0x3000
}

/// Whether `c` belongs to the class `k`.
pub open spec fn in_class(c: char, k: CharClass) -> bool {
    match k {
        CharClass::Whitespace => is_whitespace(c),
        CharClass::Paren => c == '(' || c == ')',
        CharClass::Hash => c == '#',
    }
}

/// `s` without its leading characters of class `k`.
pub open spec fn trim_start_class(s: Seq<char>, k: CharClass) -> Seq<char>
    decreases s.len(),
{
    if s.len() > 0 && in_class(s[0], k) {
        trim_start_class(s.drop_first(), k)
    } else {
        s
    }
}

/// `s` without its trailing characters of class `k`.
pub open spec fn trim_end_class(s: Seq<char>, k: CharClass) -> Seq<char>
    decreases s.len(),
{
    if s.len() > 0 && in_class(s.last(), k) {
        trim_end_class(s.drop_last(), k)
    } else {
        s
    }
}

/// `s` without its leading and trailing characters of class `k`.
pub open spec fn trim_class(s: Seq<char>, k: CharClass) -> Seq<char> {
    trim_end_class(trim_start_class(s, k), k)
}

/// Value of an ASCII hex digit (`0-9`, `a-f`, `A-F`).
pub open spec fn hex_digit(c: char) -> Option<u8> {
    let v = c as u32;
    if 48 <= v <= 57 {
        Some((v - 48) as u8)
    } else if 97 <= v <= 102 {
        Some((v - 87) as u8)
    } else if 65 <= v <= 70 {
        Some((v - 55) as u8)
    } else {
        None
    }
}

/// Value of a two-character hex field: exactly two ASCII hex digits, the
/// first one the high nibble.
pub open spec fn hex_pair(a: char, b: char) -> Option<u8> {
    match (hex_digit(a), hex_digit(b)) {
        (Some(x), Some(y)) => Some((16 * x + y) as u8),
        _ => None,
    }
}

/// The hex field at characters `k` and `k + 1`, if `s` is long enough.
pub open spec fn hex_field(s: Seq<char>, k: int) -> Option<u8> {
    if s.len() >= k + 2 {
        hex_pair(s[k], s[k + 1])
    } else {
        None
    }
}

/// Channels `RRGGBB` at the start of `s`, opaque.
pub open spec fn spec_rgb_hex(s: Seq<char>) -> Option<Rgba8> {
    match (hex_field(s, 0), hex_field(s, 2), hex_field(s, 4)) {
        (Some(r), Some(g), Some(b)) => Some((r, g, b, 255u8)),
        _ => None,
    }
}

/// Channels `RRGGBBAA` at the start of `s`.
pub open spec fn spec_rgba_hex(s: Seq<char>) -> Option<Rgba8> {
    match (hex_field(s, 0), hex_field(s, 2), hex_field(s, 4), hex_field(s, 6)) {
        (Some(r), Some(g), Some(b), Some(a)) => Some((r, g, b, a)),
        _ => None,
    }
}

/// A hex color: leading `#`s are ignored, then exactly six characters
/// `RRGGBB` or eight characters `RRGGBBAA`.
pub open spec fn spec_from_hex(s: Seq<char>) -> Option<Rgba8> {
    let h = trim_start_class(s, CharClass::Hash);
    if h.len() == 6 {
        spec_rgb_hex(h)
    } else if h.len() == 8 {
        spec_rgba_hex(h)
    } else {
        None
    }
}

/// Whether `c` is an ASCII decimal digit.
pub open spec fn is_dec_digit(c: char) -> bool {
    48 <= (c as u32) <= 57
}

/// Whether every character of `ds` is a decimal digit.
pub open spec fn all_dec_digits(ds: Seq<char>) -> bool {
    forall|i: int| 0 <= i < ds.len() ==> is_dec_digit(#[trigger] ds[i])
}

/// `s` without a leading `+`.
pub open spec fn digits_part(s: Seq<char>) -> Seq<char> {
    if s.len() > 0 && s[0] == '+' {
        s.drop_first()
    } else {
        s
    }
}

/// Decimal value of a string of digits.
pub open spec fn dec_value(ds: Seq<char>) -> nat
    decreases ds.len(),
{
    if ds.len() == 0 {
        0
    } else {
        dec_value(ds.drop_last()) * 10 + ((ds.last() as u32) - 48) as nat
    }
}

/// A `u8` written in decimal as `str::parse::<u8>` reads it: an optional
/// `+`, then one or more digits, with a value of at most 255.
pub open spec fn spec_parse_u8(s: Seq<char>) -> Option<u8> {
    let ds = digits_part(s);
    if ds.len() > 0 && all_dec_digits(ds) && dec_value(ds) <= 255 {
        Some(dec_value(ds) as u8)
    } else {
        None
    }
}

/// The pieces of `s` between commas (`str::split(',')`): one more piece than
/// there are commas.
pub open spec fn split_commas(s: Seq<char>) -> Seq<Seq<char>>
    decreases s.len(),
{
    if s.len() == 0 {
        seq![Seq::<char>::empty()]
    } else {
        let p = split_commas(s.drop_last());
        if s.last() == ',' {
            p.push(Seq::<char>::empty())
        } else {
            p.update(p.len() - 1, p.last().push(s.last()))
        }
    }
}

/// A channel tuple `(r, g, b)` or `(r, g, b, a)`: parentheses at either end
/// are ignored, the pieces between commas may be padded with whitespace,
/// and alpha defaults to 255.
pub open spec fn spec_parse_tuple(s: Seq<char>) -> Option<Rgba8> {
    let parts = split_commas(trim_class(s, CharClass::Paren));
    if parts.len() != 3 && parts.len() != 4 {
        None
    } else {
        let r = spec_parse_u8(trim_class(parts[0], CharClass::Whitespace));
        let g = spec_parse_u8(trim_class(parts[1], CharClass::Whitespace));
        let b = spec_parse_u8(trim_class(parts[2], CharClass::Whitespace));
        let a = if parts.len() == 4 {
            spec_parse_u8(trim_class(parts[3], CharClass::Whitespace))
        } else {
            Some(255u8)
        };
        match (r, g, b, a) {
            (Some(r), Some(g), Some(b), Some(a)) => Some((r, g, b, a)),
            _ => None,
        }
    }
}

/// The named color that the lowercase name `l` denotes.
pub open spec fn named_of(l: Seq<char>) -> Option<NamedColor> {
    if l == seq!['w', 'h', 'i', 't', 'e'] {
        Some(NamedColor::White)
    } else if l == seq!['b', 'l', 'a', 'c', 'k'] {
        Some(NamedColor::Black)
    } else if l == seq!['r', 'e', 'd'] {
        Some(NamedColor::Red)
    } else if l == seq!['g', 'r', 'e', 'e', 'n'] {
        Some(NamedColor::Green)
    } else if l == seq!['b', 'l', 'u', 'e'] {
        Some(NamedColor::Blue)
    } else if l == seq!['y', 'e', 'l', 'l', 'o', 'w'] {
        Some(NamedColor::Yellow)
    } else if l == seq!['c', 'y', 'a', 'n'] {
        Some(NamedColor::Cyan)
    } else if l == seq!['m', 'a', 'g', 'e', 'n', 't', 'a'] {
        Some(NamedColor::Magenta)
    } else if l == seq!['g', 'r', 'a', 'y'] {
        Some(NamedColor::Gray)
    } else if l == seq!['d', 'a', 'r', 'k', ' ', 'g', 'r', 'a', 'y'] || l == seq![
        'd',
        'a',
        'r',
        'k',
        '_',
        'g',
        'r',
        'a',
        'y',
    ] {
        Some(NamedColor::DarkGray)
    } else if l == seq!['l', 'i', 'g', 'h', 't', ' ', 'g', 'r', 'a', 'y'] || l == seq![
        'l',
        'i',
        'g',
        'h',
        't',
        '_',
        'g',
        'r',
        'a',
        'y',
    ] {
        Some(NamedColor::LightGray)
    } else if l == seq!['o', 'r', 'a', 'n', 'g', 'e'] {
        Some(NamedColor::Orange)
    } else if l == seq!['p', 'u', 'r', 'p', 'l', 'e'] {
        Some(NamedColor::Purple)
    } else if l == seq!['b', 'r', 'o', 'w', 'n'] {
        Some(NamedColor::Brown)
    } else if l == seq!['p', 'i', 'n', 'k'] {
        Some(NamedColor::Pink)
    } else if l == seq!['g', 'o', 'l', 'd'] {
        Some(NamedColor::Gold)
    } else if l == seq!['t', 'r', 'a', 'n', 's', 'p', 'a', 'r', 'e', 'n', 't'] {
        Some(NamedColor::Transparent)
    } else {
        None
    }
}

/// Name for what `str::to_lowercase` returns for the string made of the
/// characters `s`.
pub uninterp spec fn lowercase_of(s: Seq<char>) -> Seq<char>;

/// Whether every character of `s` is an ASCII hex digit.
pub open spec fn all_hex_digits(s: Seq<char>) -> bool {
    forall|i: int| 0 <= i < s.len() ==> (#[trigger] hex_digit(s[i])).is_some()
}

/// What `Color::from_str` makes of `s`, with whitespace around it ignored:
/// a channel tuple when it is parenthesised or holds a comma, a hex color
/// when it starts with `#` or is all hex digits, otherwise a color name in
/// any letter case.
pub open spec fn spec_parse_color(s: Seq<char>) -> Result<ColorSpec, ColorParseError> {
    let t = trim_class(s, CharClass::Whitespace);
    if (t.len() > 0 && t[0] == '(' && t.last() == ')') || t.contains(',') {
        match spec_parse_tuple(t) {
            Some(c) => Ok(ColorSpec::Rgba(c.0, c.1, c.2, c.3)),
            None => Err(ColorParseError::UnknownName),
        }
    } else if (t.len() > 0 && t[0] == '#') || all_hex_digits(t) {
        match spec_from_hex(t) {
            Some(c) => Ok(ColorSpec::Rgba(c.0, c.1, c.2, c.3)),
            None => Err(ColorParseError::InvalidHex),
        }
    } else {
        match named_of(lowercase_of(t)) {
            Some(n) => Ok(ColorSpec::Named(n)),
            None => Err(ColorParseError::UnknownName),
        }
    }
}

proof fn lemma_trim_start_shape(s: Seq<char>, k: CharClass)
    ensures
        trim_start_class(s, k).len() == 0 || !in_class(trim_start_class(s, k)[0], k),
    decreases s.len(),
{
    if s.len() > 0 && in_class(s[0], k) {
        lemma_trim_start_shape(s.drop_first(), k);
    }
}

proof fn lemma_trim_end_shape(s: Seq<char>, k: CharClass)
    ensures
        trim_end_class(s, k).len() <= s.len(),
        trim_end_class(s, k) == s.take(trim_end_class(s, k).len() as int),
        trim_end_class(s, k).len() == 0 || !in_class(trim_end_class(s, k).last(), k),
    decreases s.len(),
{
    if s.len() > 0 && in_class(s.last(), k) {
        lemma_trim_end_shape(s.drop_last(), k);
        let r = trim_end_class(s.drop_last(), k);
        assert(s.drop_last().take(r.len() as int) =~= s.take(r.len() as int));
    } else {
        assert(s.take(s.len() as int) =~= s);
    }
}

/// Trimming twice is trimming once.
pub proof fn lemma_trim_idempotent(s: Seq<char>, k: CharClass)
    ensures
        trim_class(trim_class(s, k), k) == trim_class(s, k),
{
    let a = trim_start_class(s, k);
    let t = trim_end_class(a, k);
    lemma_trim_start_shape(s, k);
    lemma_trim_end_shape(a, k);
    if t.len() > 0 {
        assert(t[0] == a[0]);
    }
    assert(trim_start_class(t, k) == t);
    assert(trim_end_class(t, k) == t);
}

/// Whitespace around a color string does not change how it parses.
pub proof fn lemma_parse_color_ignores_surrounding_whitespace(s: Seq<char>)
    ensures
        spec_parse_color(trim_class(s, CharClass::Whitespace)) == spec_parse_color(s),
{
    lemma_trim_idempotent(s, CharClass::Whitespace);
}

/// The characters of `s`, in order.
pub fn chars_of(s: &str) -> (res: Vec<char>)
    ensures
        res@ == s@,
{
    let mut res: Vec<char> = Vec::new();
    for c in it: s.chars()
        invariant
            res@ == it.seq().take(it.index() as int),
    {
        res.push(c);
    }
    res
}

/// The characters `s[lo..hi]`.
fn copy_range(s: &[char], lo: usize, hi: usize) -> (res: Vec<char>)
    requires
        lo <= hi <= s@.len(),
    ensures
        res@ == s@.subrange(lo as int, hi as int),
{
    let mut res: Vec<char> = Vec::new();
    let mut i = lo;
    while i < hi
        invariant
            lo <= i <= hi,
            hi <= s@.len(),
            res@ == s@.subrange(lo as int, i as int),
        decreases hi - i,
    {
        res.push(s[i]);
        i = i + 1;
        assert(res@ =~= s@.subrange(lo as int, i as int));
    }
    res
}

fn is_in_class(c: char, k: CharClass) -> (res: bool)
    ensures
        res == in_class(c, k),
{
    match k {
        CharClass::Whitespace => {
            let v = c as u32;
            (0x9 <= v && v <= 0xD) || v == 0x20 || v == 0x85 || v == 0xA0 || v == 0x1680 || (0x2000
                <= v && v <= 0x200A) || v == 0x2028 || v == 0x2029 || v == 0x202F || v == 0x205F
                || v == 0x3000
        },
        CharClass::Paren => c == '(' || c == ')',
        CharClass::Hash => c == '#',
    }
}

/// `s` without its leading and trailing characters of class `k` (only the
/// leading ones when `start_only`).
fn trim_chars(s: &[char], k: CharClass, start_only: bool) -> (res: Vec<char>)
    ensures
        start_only ==> res@ == trim_start_class(s@, k),
        !start_only ==> res@ == trim_class(s@, k),
{
    let n = s.len();
    let mut lo: usize = 0;
    assert(s@.subrange(0, n as int) =~= s@);
    while lo < n && is_in_class(s[lo], k)
        invariant
            lo <= n,
            n == s@.len(),
            trim_start_class(s@, k) == trim_start_class(s@.subrange(lo as int, n as int), k),
        decreases n - lo,
    {
        assert(s@.subrange(lo as int, n as int).drop_first() =~= s@.subrange(lo + 1, n as int));
        lo = lo + 1;
    }
    let mut hi: usize = n;
    if !start_only {
        let ghost t = s@.subrange(lo as int, n as int);
        assert(t.subrange(0, t.len() as int) =~= t);
        while hi > lo && is_in_class(s[hi - 1], k)
            invariant
                lo <= hi <= n,
                n == s@.len(),
                t == s@.subrange(lo as int, n as int),
                trim_end_class(t, k) == trim_end_class(s@.subrange(lo as int, hi as int), k),
            decreases hi - lo,
        {
            assert(s@.subrange(lo as int, hi as int).drop_last() =~= s@.subrange(
                lo as int,
                hi - 1,
            ));
            hi = hi - 1;
        }
    }
    copy_range(s, lo, hi)
}

fn hex_digit_of(c: char) -> (res: Option<u8>)
    ensures
        res == hex_digit(c),
{
    let v = c as u32;
    if 48 <= v && v <= 57 {
        Some((v - 48) as u8)
    } else if 97 <= v && v <= 102 {
        Some((v - 87) as u8)
    } else if 65 <= v && v <= 70 {
        Some((v - 55) as u8)
    } else {
        None
    }
}

fn hex_field_at(s: &[char], k: usize) -> (res: Option<u8>)
    requires
        k + 2 <= usize::MAX,
    ensures
        res == hex_field(s@, k as int),
{
    if s.len() < k + 2 {
        return None;
    }
    match (hex_digit_of(s[k]), hex_digit_of(s[k + 1])) {
        (Some(x), Some(y)) => Some(16 * x + y),
        _ => None,
    }
}

fn rgb_hex_chars(s: &[char]) -> (res: Option<Rgba8>)
    ensures
        res == spec_rgb_hex(s@),
{
    let r = hex_field_at(s, 0);
    let g = hex_field_at(s, 2);
    let b = hex_field_at(s, 4);
    match (r, g, b) {
        (Some(r), Some(g), Some(b)) => Some((r, g, b, 255u8)),
        _ => None,
    }
}

fn rgba_hex_chars(s: &[char]) -> (res: Option<Rgba8>)
    ensures
        res == spec_rgba_hex(s@),
{
    let r = hex_field_at(s, 0);
    let g = hex_field_at(s, 2);
    let b = hex_field_at(s, 4);
    let a = hex_field_at(s, 6);
    match (r, g, b, a) {
        (Some(r), Some(g), Some(b), Some(a)) => Some((r, g, b, a)),
        _ => None,
    }
}

fn from_hex_chars(s: &[char]) -> (res: Option<Rgba8>)
    ensures
        res == spec_from_hex(s@),
{
    let h = trim_chars(s, CharClass::Hash, true);
    if h.len() == 6 {
        rgb_hex_chars(h.as_slice())
    } else if h.len() == 8 {
        rgba_hex_chars(h.as_slice())
    } else {
        None
    }
}

/// Parses the channels `RRGGBB` at the start of `hex` (characters after
/// the sixth are ignored); alpha is 255.  `None` when `hex` is shorter or a
/// field is not hex.
pub fn parse_rgb_hex(hex: &str) -> (res: Option<Rgba8>)
    ensures
        res == spec_rgb_hex(hex@),
{
    let cs = chars_of(hex);
    rgb_hex_chars(cs.as_slice())
}

/// Parses the channels `RRGGBBAA` at the start of `hex` (characters after
/// the eighth are ignored).  `None` when `hex` is shorter or a field is not
/// hex.
pub fn parse_rgba_hex(hex: &str) -> (res: Option<Rgba8>)
    ensures
        res == spec_rgba_hex(hex@),
{
    let cs = chars_of(hex);
    rgba_hex_chars(cs.as_slice())
}

/// Parses a hex color `RRGGBB` or `RRGGBBAA`, ignoring leading `#`s.
pub fn from_hex(hex: &str) -> (res: Option<Rgba8>)
    ensures
        res == spec_from_hex(hex@),
{
    let cs = chars_of(hex);
    from_hex_chars(cs.as_slice())
}

fn min_256(x: u32) -> (res: u32)
    ensures
        res == if x < 256 { x } else { 256 },
{
    if x < 256 { x } else { 256 }
}

/// Parses a decimal `u8` with an optional leading `+`.
fn parse_u8_chars(s: &[char]) -> (res: Option<u8>)
    ensures
        res == spec_parse_u8(s@),
{
    let n = s.len();
    let start: usize = if n > 0 && s[0] == '+' { 1 } else { 0 };
    let ghost ds = digits_part(s@);
    assert(ds =~= s@.subrange(start as int, n as int));
    if start >= n {
        return None;
    }
    let mut acc: u32 = 0;
    let mut i: usize = start;
    assert(ds.take(0) =~= Seq::<char>::empty());
    while i < n
        invariant
            start <= i <= n,
            n == s@.len(),
            ds == s@.subrange(start as int, n as int),
            ds == digits_part(s@),
            forall|j: int| 0 <= j < i - start ==> is_dec_digit(#[trigger] ds[j]),
            acc == if dec_value(ds.take(i - start)) < 256 {
                dec_value(ds.take(i - start))
            } else {
                256
            },
        decreases n - i,
    {
        let c = s[i];
        let v = c as u32;
        assert(ds[i - start] == c);
        if v < 48 || v > 57 {
            assert(!is_dec_digit(ds[i - start]));
            return None;
        }
        let ghost k = i - start;
        assert(ds.take(k + 1).drop_last() =~= ds.take(k));
        assert(ds.take(k + 1).last() == c);
        acc = min_256(acc * 10 + (v - 48));
        i = i + 1;
    }
    assert(ds.take(n - start) =~= ds);
    if acc <= 255 {
        Some(acc as u8)
    } else {
        None
    }
}

/// The pieces of `s` between commas.
fn split_commas_chars(s: &[char]) -> (res: Vec<Vec<char>>)
    ensures
        res@.map_values(|v: Vec<char>| v@) == split_commas(s@),
{
    let n = s.len();
    let mut done: Vec<Vec<char>> = Vec::new();
    let mut cur: Vec<char> = Vec::new();
    let mut i: usize = 0;
    assert(s@.take(0) =~= Seq::<char>::empty());
    assert(done@.map_values(|v: Vec<char>| v@).push(cur@) =~= split_commas(s@.take(0)));
    while i < n
        invariant
            i <= n,
            n == s@.len(),
            done@.map_values(|v: Vec<char>| v@).push(cur@) == split_commas(s@.take(i as int)),
        decreases n - i,
    {
        let c = s[i];
        let ghost prev = done@.map_values(|v: Vec<char>| v@);
        assert(s@.take(i + 1).drop_last() =~= s@.take(i as int));
        assert(s@.take(i + 1).last() == c);
        if c == ',' {
            let mut fresh: Vec<char> = Vec::new();
            std::mem::swap(&mut fresh, &mut cur);
            done.push(fresh);
            assert(done@.map_values(|v: Vec<char>| v@) =~= prev.push(
                split_commas(s@.take(i as int)).last(),
            ));
            assert(done@.map_values(|v: Vec<char>| v@).push(cur@) =~= split_commas(
                s@.take(i + 1),
            ));
        } else {
            cur.push(c);
            assert(prev.push(cur@) =~= split_commas(s@.take(i as int)).update(
                prev.len() as int,
                split_commas(s@.take(i as int)).last().push(c),
            ));
        }
        i = i + 1;
    }
    assert(s@.take(n as int) =~= s@);
    done.push(cur);
    assert(done@.map_values(|v: Vec<char>| v@) =~= split_commas(s@));
    done
}

fn parse_tuple_chars(s: &[char]) -> (res: Option<Rgba8>)
    ensures
        res == spec_parse_tuple(s@),
{
    let inner = trim_chars(s, CharClass::Paren, false);
    let parts = split_commas_chars(inner.as_slice());
    let ghost pv = parts@.map_values(|v: Vec<char>| v@);
    assert(pv.len() == parts@.len());
    if parts.len() != 3 && parts.len() != 4 {
        return None;
    }
    assert(pv[0] == parts@[0]@);
    assert(pv[1] == parts@[1]@);
    assert(pv[2] == parts@[2]@);
    let r = parse_u8_chars(trim_chars(parts[0].as_slice(), CharClass::Whitespace, false).as_slice());
    let g = parse_u8_chars(trim_chars(parts[1].as_slice(), CharClass::Whitespace, false).as_slice());
    let b = parse_u8_chars(trim_chars(parts[2].as_slice(), CharClass::Whitespace, false).as_slice());
    let a = if parts.len() == 4 {
        assert(pv[3] == parts@[3]@);
        parse_u8_chars(trim_chars(parts[3].as_slice(), CharClass::Whitespace, false).as_slice())
    } else {
        Some(255u8)
    };
    match (r, g, b, a) {
        (Some(r), Some(g), Some(b), Some(a)) => Some((r, g, b, a)),
        _ => None,
    }
}

/// Parses a channel tuple such as `(255, 128, 0)` or `10,20,30,40`;
/// alpha defaults to 255.
pub fn parse_tuple(rgb: &str) -> (res: Option<Rgba8>)
    ensures
        res == spec_parse_tuple(rgb@),
{
    let cs = chars_of(rgb);
    parse_tuple_chars(cs.as_slice())
}

/// Calls `str::to_lowercase` on the string made of the characters `s`.  The
/// result is named by `lowercase_of`; nothing more is claimed of it.
#[verifier::external_body]
fn to_lowercase_chars(s: &[char]) -> (res: String)
    ensures
        res@ == lowercase_of(s@),
{
    s.iter().collect::<String>().to_lowercase()
}

fn eq_chars(a: &[char], b: &[char]) -> (res: bool)
    ensures
        res == (a@ == b@),
{
    if a.len() != b.len() {
        return false;
    }
    let mut i: usize = 0;
    while i < a.len()
        invariant
            a@.len() == b@.len(),
            i <= a@.len(),
            forall|j: int| 0 <= j < i ==> a@[j] == b@[j],
        decreases a@.len() - i,
    {
        if a[i] != b[i] {
            return false;
        }
        i = i + 1;
    }
    assert(a@ =~= b@);
    true
}

fn named_of_chars(l: &[char]) -> (res: Option<NamedColor>)
    ensures
        res == named_of(l@),
{
    if eq_chars(l, &['w', 'h', 'i', 't', 'e']) {
        Some(NamedColor::White)
    } else if eq_chars(l, &['b', 'l', 'a', 'c', 'k']) {
        Some(NamedColor::Black)
    } else if eq_chars(l, &['r', 'e', 'd']) {
        Some(NamedColor::Red)
    } else if eq_chars(l, &['g', 'r', 'e', 'e', 'n']) {
        Some(NamedColor::Green)
    } else if eq_chars(l, &['b', 'l', 'u', 'e']) {
        Some(NamedColor::Blue)
    } else if eq_chars(l, &['y', 'e', 'l', 'l', 'o', 'w']) {
        Some(NamedColor::Yellow)
    } else if eq_chars(l, &['c', 'y', 'a', 'n']) {
        Some(NamedColor::Cyan)
    } else if eq_chars(l, &['m', 'a', 'g', 'e', 'n', 't', 'a']) {
        Some(NamedColor::Magenta)
    } else if eq_chars(l, &['g', 'r', 'a', 'y']) {
        Some(NamedColor::Gray)
    } else if eq_chars(l, &['d', 'a', 'r', 'k', ' ', 'g', 'r', 'a', 'y']) || eq_chars(
        l,
        &['d', 'a', 'r', 'k', '_', 'g', 'r', 'a', 'y'],
    ) {
        Some(NamedColor::DarkGray)
    } else if eq_chars(l, &['l', 'i', 'g', 'h', 't', ' ', 'g', 'r', 'a', 'y']) || eq_chars(
        l,
        &['l', 'i', 'g', 'h', 't', '_', 'g', 'r', 'a', 'y'],
    ) {
        Some(NamedColor::LightGray)
    } else if eq_chars(l, &['o', 'r', 'a', 'n', 'g', 'e']) {
        Some(NamedColor::Orange)
    } else if eq_chars(l, &['p', 'u', 'r', 'p', 'l', 'e']) {
        Some(NamedColor::Purple)
    } else if eq_chars(l, &['b', 'r', 'o', 'w', 'n']) {
        Some(NamedColor::Brown)
    } else if eq_chars(l, &['p', 'i', 'n', 'k']) {
        Some(NamedColor::Pink)
    } else if eq_chars(l, &['g', 'o', 'l', 'd']) {
        Some(NamedColor::Gold)
    } else if eq_chars(l, &['t', 'r', 'a', 'n', 's', 'p', 'a', 'r', 'e', 'n', 't']) {
        Some(NamedColor::Transparent)
    } else {
        None
    }
}

/// The named color that the lowercase name `lower` denotes.
pub fn named_color(lower: &str) -> (res: Option<NamedColor>)
    ensures
        res == named_of(lower@),
{
    let cs = chars_of(lower);
    named_of_chars(cs.as_slice())
}

/// Looks up a color name in any letter case (for example `"Dark Gray"` or
/// `"dark_gray"`).
pub fn parse_named(s: &str) -> (res: Option<NamedColor>)
    ensures
        res == named_of(lowercase_of(s@)),
{
    let cs = chars_of(s);
    let lower = to_lowercase_chars(cs.as_slice());
    named_color(lower.as_str())
}

fn contains_char(s: &[char], c: char) -> (res: bool)
    ensures
        res == s@.contains(c),
{
    let mut i: usize = 0;
    while i < s.len()
        invariant
            i <= s@.len(),
            forall|j: int| 0 <= j < i ==> s@[j] != c,
        decreases s@.len() - i,
    {
        if s[i] == c {
            assert(s@[i as int] == c);
            return true;
        }
        i = i + 1;
    }
    false
}

fn all_hex_digit_chars(s: &[char]) -> (res: bool)
    ensures
        res == all_hex_digits(s@),
{
    let mut i: usize = 0;
    while i < s.len()
        invariant
            i <= s@.len(),
            forall|j: int| 0 <= j < i ==> (#[trigger] hex_digit(s@[j])).is_some(),
        decreases s@.len() - i,
    {
        if hex_digit_of(s[i]).is_none() {
            return false;
        }
        i = i + 1;
    }
    true
}

/// Parses a color string: a channel tuple (parenthesised or holding a
/// comma), a hex color (starting with `#` or made of hex digits), or a color
/// name in any letter case; whitespace around it is ignored.
pub fn parse_color(s: &str) -> (res: Result<ColorSpec, ColorParseError>)
    ensures
        res == spec_parse_color(s@),
{
    let cs = chars_of(s);
    let t = trim_chars(cs.as_slice(), CharClass::Whitespace, false);
    let n = t.len();
    if (n > 0 && t[0] == '(' && t[n - 1] == ')') || contains_char(t.as_slice(), ',') {
        match parse_tuple_chars(t.as_slice()) {
            Some(c) => Ok(ColorSpec::Rgba(c.0, c.1, c.2, c.3)),
            None => Err(ColorParseError::UnknownName),
        }
    } else if (n > 0 && t[0] == '#') || all_hex_digit_chars(t.as_slice()) {
        match from_hex_chars(t.as_slice()) {
            Some(c) => Ok(ColorSpec::Rgba(c.0, c.1, c.2, c.3)),
            None => Err(ColorParseError::InvalidHex),
        }
    } else {
        let lower = to_lowercase_chars(t.as_slice());
        match named_color(lower.as_str()) {
            Some(c) => Ok(ColorSpec::Named(c)),
            None => Err(ColorParseError::UnknownName),
        }
    }
}

/// The sixteen hex digits in lowercase, in order of value.
pub open spec fn lower_hex_digits() -> Seq<char> {
    seq!['0', '1', '2', '3', '4', '5', '6', '7', '8', '9', 'a', 'b', 'c', 'd', 'e', 'f']
}

/// The sixteen hex digits in uppercase, in order of value.
pub open spec fn upper_hex_digits() -> Seq<char> {
    seq!['0', '1', '2', '3', '4', '5', '6', '7', '8', '9', 'A', 'B', 'C', 'D', 'E', 'F']
}

/// The hex digits are exactly `0-9`, `a-f` and `A-F`, in either case worth
/// their radix-16 value; every other character is refused.
pub proof fn lemma_hex_digit_values(c: char)
    ensures
        forall|d: int|
            0 <= d < 16 ==> hex_digit(#[trigger] lower_hex_digits()[d]) == Some(d as u8)
                && hex_digit(upper_hex_digits()[d]) == Some(d as u8),
        hex_digit(c).is_some() ==> lower_hex_digits().contains(c) || upper_hex_digits().contains(
            c,
        ),
        forall|x: int, y: int|
            0 <= x < 16 && 0 <= y < 16 ==> hex_pair(
                #[trigger] lower_hex_digits()[x],
                #[trigger] upper_hex_digits()[y],
            ) == Some((16 * x + y) as u8) && hex_pair(lower_hex_digits()[x], lower_hex_digits()[y])
                == Some((16 * x + y) as u8),
{
    assert(lower_hex_digits()[0] == '0' && upper_hex_digits()[0] == '0');
    assert(lower_hex_digits()[1] == '1' && upper_hex_digits()[1] == '1');
    assert(lower_hex_digits()[2] == '2' && upper_hex_digits()[2] == '2');
    assert(lower_hex_digits()[3] == '3' && upper_hex_digits()[3] == '3');
    assert(lower_hex_digits()[4] == '4' && upper_hex_digits()[4] == '4');
    assert(lower_hex_digits()[5] == '5' && upper_hex_digits()[5] == '5');
    assert(lower_hex_digits()[6] == '6' && upper_hex_digits()[6] == '6');
    assert(lower_hex_digits()[7] == '7' && upper_hex_digits()[7] == '7');
    assert(lower_hex_digits()[8] == '8' && upper_hex_digits()[8] == '8');
    assert(lower_hex_digits()[9] == '9' && upper_hex_digits()[9] == '9');
    assert(lower_hex_digits()[10] == 'a' && upper_hex_digits()[10] == 'A');
    assert(lower_hex_digits()[11] == 'b' && upper_hex_digits()[11] == 'B');
    assert(lower_hex_digits()[12] == 'c' && upper_hex_digits()[12] == 'C');
    assert(lower_hex_digits()[13] == 'd' && upper_hex_digits()[13] == 'D');
    assert(lower_hex_digits()[14] == 'e' && upper_hex_digits()[14] == 'E');
    assert(lower_hex_digits()[15] == 'f' && upper_hex_digits()[15] == 'F');
    assert forall|d: int| 0 <= d < 16 implies hex_digit(#[trigger] lower_hex_digits()[d]) == Some(
        d as u8,
    ) && hex_digit(upper_hex_digits()[d]) == Some(d as u8) by {
        if d == 0 {
        } else if d == 1 {
        } else if d == 2 {
        } else if d == 3 {
        } else if d == 4 {
        } else if d == 5 {
        } else if d == 6 {
        } else if d == 7 {
        } else if d == 8 {
        } else if d == 9 {
        } else if d == 10 {
        } else if d == 11 {
        } else if d == 12 {
        } else if d == 13 {
        } else if d == 14 {
        } else if d == 15 {
        }
    }
    let v = c as u32;
    if 48 <= v <= 57 {
        assert(c == lower_hex_digits()[v - 48]);
    } else if 97 <= v <= 102 {
        assert(c == lower_hex_digits()[v - 87]);
    } else if 65 <= v <= 70 {
        assert(c == upper_hex_digits()[v - 55]);
    }
}

/// The color names, lowercase, each with its color; the two-word names
/// appear with a space and with an underscore.
pub open spec fn color_name_table() -> Seq<(Seq<char>, NamedColor)> {
    seq![
        (seq!['w', 'h', 'i', 't', 'e'], NamedColor::White),
        (seq!['b', 'l', 'a', 'c', 'k'], NamedColor::Black),
        (seq!['r', 'e', 'd'], NamedColor::Red),
        (seq!['g', 'r', 'e', 'e', 'n'], NamedColor::Green),
        (seq!['b', 'l', 'u', 'e'], NamedColor::Blue),
        (seq!['y', 'e', 'l', 'l', 'o', 'w'], NamedColor::Yellow),
        (seq!['c', 'y', 'a', 'n'], NamedColor::Cyan),
        (seq!['m', 'a', 'g', 'e', 'n', 't', 'a'], NamedColor::Magenta),
        (seq!['g', 'r', 'a', 'y'], NamedColor::Gray),
        (seq!['d', 'a', 'r', 'k', ' ', 'g', 'r', 'a', 'y'], NamedColor::DarkGray),
        (seq!['d', 'a', 'r', 'k', '_', 'g', 'r', 'a', 'y'], NamedColor::DarkGray),
        (seq!['l', 'i', 'g', 'h', 't', ' ', 'g', 'r', 'a', 'y'], NamedColor::LightGray),
        (seq!['l', 'i', 'g', 'h', 't', '_', 'g', 'r', 'a', 'y'], NamedColor::LightGray),
        (seq!['o', 'r', 'a', 'n', 'g', 'e'], NamedColor::Orange),
        (seq!['p', 'u', 'r', 'p', 'l', 'e'], NamedColor::Purple),
        (seq!['b', 'r', 'o', 'w', 'n'], NamedColor::Brown),
        (seq!['p', 'i', 'n', 'k'], NamedColor::Pink),
        (seq!['g', 'o', 'l', 'd'], NamedColor::Gold),
        (seq!['t', 'r', 'a', 'n', 's', 'p', 'a', 'r', 'e', 'n', 't'], NamedColor::Transparent),
    ]
}

/// A lowercase name denotes a color exactly when it is in the name table, and
/// then it denotes that entry's color: every name of the table is found
/// (both spellings of the two-word names included) and nothing else is.
pub proof fn lemma_named_of_table(l: Seq<char>)
    ensures
        forall|i: int|
            0 <= i < color_name_table().len() ==> named_of(#[trigger] color_name_table()[i].0)
                == Some(color_name_table()[i].1),
        named_of(l).is_some() ==> exists|i: int|
            0 <= i < color_name_table().len() && #[trigger] color_name_table()[i] == (
            l,
            named_of(l).unwrap(),
        ),
{
    assert(color_name_table()[0] == (seq!['w', 'h', 'i', 't', 'e'], NamedColor::White));
    assert(named_of(seq!['w', 'h', 'i', 't', 'e']) == Some(NamedColor::White));
    assert(color_name_table()[1] == (seq!['b', 'l', 'a', 'c', 'k'], NamedColor::Black));
    assert(named_of(seq!['b', 'l', 'a', 'c', 'k']) == Some(NamedColor::Black));
    assert(color_name_table()[2] == (seq!['r', 'e', 'd'], NamedColor::Red));
    assert(named_of(seq!['r', 'e', 'd']) == Some(NamedColor::Red));
    assert(color_name_table()[3] == (seq!['g', 'r', 'e', 'e', 'n'], NamedColor::Green));
    assert(named_of(seq!['g', 'r', 'e', 'e', 'n']) == Some(NamedColor::Green));
    assert(color_name_table()[4] == (seq!['b', 'l', 'u', 'e'], NamedColor::Blue));
    assert(named_of(seq!['b', 'l', 'u', 'e']) == Some(NamedColor::Blue));
    assert(color_name_table()[5] == (seq!['y', 'e', 'l', 'l', 'o', 'w'], NamedColor::Yellow));
    assert(named_of(seq!['y', 'e', 'l', 'l', 'o', 'w']) == Some(NamedColor::Yellow));
    assert(color_name_table()[6] == (seq!['c', 'y', 'a', 'n'], NamedColor::Cyan));
    assert(named_of(seq!['c', 'y', 'a', 'n']) == Some(NamedColor::Cyan));
    assert(color_name_table()[7] == (seq!['m', 'a', 'g', 'e', 'n', 't', 'a'], NamedColor::Magenta));
    assert(named_of(seq!['m', 'a', 'g', 'e', 'n', 't', 'a']) == Some(NamedColor::Magenta));
    assert(color_name_table()[8] == (seq!['g', 'r', 'a', 'y'], NamedColor::Gray));
    assert(named_of(seq!['g', 'r', 'a', 'y']) == Some(NamedColor::Gray));
    assert(color_name_table()[9] == (seq!['d', 'a', 'r', 'k', ' ', 'g', 'r', 'a', 'y'], NamedColor::DarkGray));
    assert(named_of(seq!['d', 'a', 'r', 'k', ' ', 'g', 'r', 'a', 'y']) == Some(NamedColor::DarkGray));
    assert(color_name_table()[10] == (seq!['d', 'a', 'r', 'k', '_', 'g', 'r', 'a', 'y'], NamedColor::DarkGray));
    assert(named_of(seq!['d', 'a', 'r', 'k', '_', 'g', 'r', 'a', 'y']) == Some(NamedColor::DarkGray));
    assert(color_name_table()[11] == (seq!['l', 'i', 'g', 'h', 't', ' ', 'g', 'r', 'a', 'y'], NamedColor::LightGray));
    assert(named_of(seq!['l', 'i', 'g', 'h', 't', ' ', 'g', 'r', 'a', 'y']) == Some(NamedColor::LightGray));
    assert(color_name_table()[12] == (seq!['l', 'i', 'g', 'h', 't', '_', 'g', 'r', 'a', 'y'], NamedColor::LightGray));
    assert(named_of(seq!['l', 'i', 'g', 'h', 't', '_', 'g', 'r', 'a', 'y']) == Some(NamedColor::LightGray));
    assert(color_name_table()[13] == (seq!['o', 'r', 'a', 'n', 'g', 'e'], NamedColor::Orange));
    assert(named_of(seq!['o', 'r', 'a', 'n', 'g', 'e']) == Some(NamedColor::Orange));
    assert(color_name_table()[14] == (seq!['p', 'u', 'r', 'p', 'l', 'e'], NamedColor::Purple));
    assert(named_of(seq!['p', 'u', 'r', 'p', 'l', 'e']) == Some(NamedColor::Purple));
    assert(color_name_table()[15] == (seq!['b', 'r', 'o', 'w', 'n'], NamedColor::Brown));
    assert(named_of(seq!['b', 'r', 'o', 'w', 'n']) == Some(NamedColor::Brown));
    assert(color_name_table()[16] == (seq!['p', 'i', 'n', 'k'], NamedColor::Pink));
    assert(named_of(seq!['p', 'i', 'n', 'k']) == Some(NamedColor::Pink));
    assert(color_name_table()[17] == (seq!['g', 'o', 'l', 'd'], NamedColor::Gold));
    assert(named_of(seq!['g', 'o', 'l', 'd']) == Some(NamedColor::Gold));
    assert(color_name_table()[18] == (seq!['t', 'r', 'a', 'n', 's', 'p', 'a', 'r', 'e', 'n', 't'], NamedColor::Transparent));
    assert(named_of(seq!['t', 'r', 'a', 'n', 's', 'p', 'a', 'r', 'e', 'n', 't']) == Some(NamedColor::Transparent));
    assert forall|i: int|
        0 <= i < color_name_table().len() implies named_of(#[trigger] color_name_table()[i].0)
        == Some(color_name_table()[i].1) by {
        if i == 0 {
        } else if i == 1 {
        } else if i == 2 {
        } else if i == 3 {
        } else if i == 4 {
        } else if i == 5 {
        } else if i == 6 {
        } else if i == 7 {
        } else if i == 8 {
        } else if i == 9 {
        } else if i == 10 {
        } else if i == 11 {
        } else if i == 12 {
        } else if i == 13 {
        } else if i == 14 {
        } else if i == 15 {
        } else if i == 16 {
        } else if i == 17 {
        } else if i == 18 {
        }
    }
    if named_of(l).is_some() {
        if l == seq!['w', 'h', 'i', 't', 'e'] {
            assert(color_name_table()[0] == (l, named_of(l).unwrap()));
        } else if l == seq!['b', 'l', 'a', 'c', 'k'] {
            assert(color_name_table()[1] == (l, named_of(l).unwrap()));
        } else if l == seq!['r', 'e', 'd'] {
            assert(color_name_table()[2] == (l, named_of(l).unwrap()));
        } else if l == seq!['g', 'r', 'e', 'e', 'n'] {
            assert(color_name_table()[3] == (l, named_of(l).unwrap()));
        } else if l == seq!['b', 'l', 'u', 'e'] {
            assert(color_name_table()[4] == (l, named_of(l).unwrap()));
        } else if l == seq!['y', 'e', 'l', 'l', 'o', 'w'] {
            assert(color_name_table()[5] == (l, named_of(l).unwrap()));
        } else if l == seq!['c', 'y', 'a', 'n'] {
            assert(color_name_table()[6] == (l, named_of(l).unwrap()));
        } else if l == seq!['m', 'a', 'g', 'e', 'n', 't', 'a'] {
            assert(color_name_table()[7] == (l, named_of(l).unwrap()));
        } else if l == seq!['g', 'r', 'a', 'y'] {
            assert(color_name_table()[8] == (l, named_of(l).unwrap()));
        } else if l == seq!['d', 'a', 'r', 'k', ' ', 'g', 'r', 'a', 'y'] {
            assert(color_name_table()[9] == (l, named_of(l).unwrap()));
        } else if l == seq!['d', 'a', 'r', 'k', '_', 'g', 'r', 'a', 'y'] {
            assert(color_name_table()[10] == (l, named_of(l).unwrap()));
        } else if l == seq!['l', 'i', 'g', 'h', 't', ' ', 'g', 'r', 'a', 'y'] {
            assert(color_name_table()[11] == (l, named_of(l).unwrap()));
        } else if l == seq!['l', 'i', 'g', 'h', 't', '_', 'g', 'r', 'a', 'y'] {
            assert(color_name_table()[12] == (l, named_of(l).unwrap()));
        } else if l == seq!['o', 'r', 'a', 'n', 'g', 'e'] {
            assert(color_name_table()[13] == (l, named_of(l).unwrap()));
        } else if l == seq!['p', 'u', 'r', 'p', 'l', 'e'] {
            assert(color_name_table()[14] == (l, named_of(l).unwrap()));
        } else if l == seq!['b', 'r', 'o', 'w', 'n'] {
            assert(color_name_table()[15] == (l, named_of(l).unwrap()));
        } else if l == seq!['p', 'i', 'n', 'k'] {
            assert(color_name_table()[16] == (l, named_of(l).unwrap()));
        } else if l == seq!['g', 'o', 'l', 'd'] {
            assert(color_name_table()[17] == (l, named_of(l).unwrap()));
        } else if l == seq!['t', 'r', 'a', 'n', 's', 'p', 'a', 'r', 'e', 'n', 't'] {
            assert(color_name_table()[18] == (l, named_of(l).unwrap()));
        }
    }
}

/// The ten decimal digits, in order of value.
pub open spec fn decimal_digits() -> Seq<char> {
    seq!['0', '1', '2', '3', '4', '5', '6', '7', '8', '9']
}

/// The decimal digits of `n`, most significant first, without leading
/// zeros (`"0"` for zero).
pub open spec fn dec_string(n: nat) -> Seq<char>
    decreases n,
{
    if n < 10 {
        seq![decimal_digits()[n as int]]
    } else {
        dec_string(n / 10).push(decimal_digits()[(n % 10) as int])
    }
}

/// The decimal digits are exactly `0-9`.
pub proof fn lemma_decimal_digit_chars(c: char)
    ensures
        forall|d: int|
            0 <= d < 10 ==> is_dec_digit(#[trigger] decimal_digits()[d]) && decimal_digits()[d]
                as u32 == 48 + d,
        is_dec_digit(c) ==> decimal_digits().contains(c),
{
    assert(decimal_digits()[0] == '0');
    assert(decimal_digits()[1] == '1');
    assert(decimal_digits()[2] == '2');
    assert(decimal_digits()[3] == '3');
    assert(decimal_digits()[4] == '4');
    assert(decimal_digits()[5] == '5');
    assert(decimal_digits()[6] == '6');
    assert(decimal_digits()[7] == '7');
    assert(decimal_digits()[8] == '8');
    assert(decimal_digits()[9] == '9');
    assert forall|d: int|
        0 <= d < 10 implies is_dec_digit(#[trigger] decimal_digits()[d]) && decimal_digits()[d]
        as u32 == 48 + d by {
        if d == 0 {
        } else if d == 1 {
        } else if d == 2 {
        } else if d == 3 {
        } else if d == 4 {
        } else if d == 5 {
        } else if d == 6 {
        } else if d == 7 {
        } else if d == 8 {
        } else if d == 9 {
        }
    }
    if is_dec_digit(c) {
        assert(c == decimal_digits()[c as u32 - 48]);
    }
}

proof fn lemma_dec_string(n: nat)
    ensures
        dec_string(n).len() > 0,
        all_dec_digits(dec_string(n)),
        dec_value(dec_string(n)) == n,
    decreases n,
{
    lemma_decimal_digit_chars('0');
    let ds = dec_string(n);
    if n < 10 {
        assert(ds.drop_last() =~= Seq::<char>::empty());
        assert(ds.last() as u32 == 48 + n);
        assert(dec_value(ds) == dec_value(ds.drop_last()) * 10 + ((ds.last() as u32) - 48) as nat);
    } else {
        lemma_dec_string(n / 10);
        assert(ds.drop_last() =~= dec_string(n / 10));
        assert(ds.last() as u32 == 48 + n % 10);
        assert(dec_value(ds) == dec_value(ds.drop_last()) * 10 + ((ds.last() as u32) - 48) as nat);
        assert(n == (n / 10) * 10 + n % 10);
        assert forall|i: int| 0 <= i < ds.len() implies is_dec_digit(#[trigger] ds[i]) by {
            if i < ds.len() - 1 {
                assert(ds[i] == dec_string(n / 10)[i]);
            }
        }
    }
}

/// Reading the decimal digits of any `u8` gives it back: every digit `0-9`
/// is read at its value.
pub proof fn lemma_parse_u8_round_trip(n: u8)
    ensures
        spec_parse_u8(dec_string(n as nat)) == Some(n),
{
    lemma_dec_string(n as nat);
    let ds = dec_string(n as nat);
    assert(is_dec_digit(ds[0]));
    assert(digits_part(ds) == ds);
}

/// The pieces `fields` joined with commas between them.
pub open spec fn comma_join(fields: Seq<Seq<char>>) -> Seq<char>
    decreases fields.len(),
{
    if fields.len() == 0 {
        Seq::<char>::empty()
    } else if fields.len() == 1 {
        fields[0]
    } else {
        comma_join(fields.drop_last()) + seq![','] + fields.last()
    }
}

/// Whether every character of `s` is whitespace.
pub open spec fn all_whitespace(s: Seq<char>) -> bool {
    forall|i: int| 0 <= i < s.len() ==> is_whitespace(#[trigger] s[i])
}

/// A tuple field: the decimal digits of `n` with whitespace `before` and
/// `after` it.
pub open spec fn padded_dec(before: Seq<char>, n: u8, after: Seq<char>) -> Seq<char> {
    before + dec_string(n as nat) + after
}

/// `s` in parentheses when `parens`.
pub open spec fn parenthesized(s: Seq<char>, parens: bool) -> Seq<char> {
    if parens {
        seq!['('] + s + seq![')']
    } else {
        s
    }
}

proof fn lemma_split_len(s: Seq<char>)
    ensures
        split_commas(s).len() >= 1,
    decreases s.len(),
{
    if s.len() > 0 {
        lemma_split_len(s.drop_last());
    }
}

proof fn lemma_split_no_comma(s: Seq<char>)
    requires
        !s.contains(','),
    ensures
        split_commas(s) == seq![s],
    decreases s.len(),
{
    if s.len() > 0 {
        let t = s.drop_last();
        assert(!t.contains(',')) by {
            if t.contains(',') {
                let j = choose|j: int| 0 <= j < t.len() && t[j] == ',';
                assert(s[j] == ',');
            }
        }
        lemma_split_no_comma(t);
        assert(s.last() != ',') by {
            assert(s[s.len() - 1] == s.last());
        }
        assert(t.push(s.last()) =~= s);
        assert(seq![t].update(0, t.push(s.last())) =~= seq![s]);
    } else {
        assert(s =~= Seq::<char>::empty());
    }
}

proof fn lemma_split_concat(x: Seq<char>, y: Seq<char>)
    ensures
        split_commas(x + seq![','] + y) == split_commas(x) + split_commas(y),
    decreases y.len(),
{
    let s = x + seq![','] + y;
    if y.len() == 0 {
        assert(s.drop_last() =~= x);
        assert(split_commas(x) + split_commas(y) =~= split_commas(x).push(Seq::<char>::empty()));
    } else {
        let y0 = y.drop_last();
        lemma_split_concat(x, y0);
        lemma_split_len(y0);
        assert(s.drop_last() =~= x + seq![','] + y0);
        assert(s.last() == y.last());
        let a = split_commas(x);
        let p = split_commas(y0);
        if y.last() == ',' {
            assert((a + p).push(Seq::<char>::empty()) =~= a + p.push(Seq::<char>::empty()));
        } else {
            assert((a + p).last() == p.last());
            assert((a + p).update((a + p).len() - 1, (a + p).last().push(y.last())) =~= a + p.update(
                p.len() - 1,
                p.last().push(y.last()),
            ));
        }
    }
}

proof fn lemma_split_join(fields: Seq<Seq<char>>)
    requires
        fields.len() >= 1,
        forall|i: int| 0 <= i < fields.len() ==> !(#[trigger] fields[i]).contains(','),
    ensures
        split_commas(comma_join(fields)) == fields,
    decreases fields.len(),
{
    if fields.len() == 1 {
        lemma_split_no_comma(fields[0]);
        assert(seq![fields[0]] =~= fields);
    } else {
        let f = fields.drop_last();
        assert forall|i: int| 0 <= i < f.len() implies !(#[trigger] f[i]).contains(',') by {
            assert(f[i] == fields[i]);
        }
        lemma_split_join(f);
        lemma_split_concat(comma_join(f), fields.last());
        lemma_split_no_comma(fields.last());
        assert(f + seq![fields.last()] =~= fields);
    }
}

proof fn lemma_trim_start_prefix(p: Seq<char>, rest: Seq<char>, k: CharClass)
    requires
        forall|i: int| 0 <= i < p.len() ==> in_class(#[trigger] p[i], k),
    ensures
        trim_start_class(p + rest, k) == trim_start_class(rest, k),
    decreases p.len(),
{
    if p.len() == 0 {
        assert(p + rest =~= rest);
    } else {
        assert((p + rest)[0] == p[0]);
        assert((p + rest).drop_first() =~= p.drop_first() + rest);
        assert forall|i: int| 0 <= i < p.drop_first().len() implies in_class(
            #[trigger] p.drop_first()[i],
            k,
        ) by {
            assert(p.drop_first()[i] == p[i + 1]);
        }
        lemma_trim_start_prefix(p.drop_first(), rest, k);
    }
}

proof fn lemma_trim_end_suffix(rest: Seq<char>, q: Seq<char>, k: CharClass)
    requires
        forall|i: int| 0 <= i < q.len() ==> in_class(#[trigger] q[i], k),
    ensures
        trim_end_class(rest + q, k) == trim_end_class(rest, k),
    decreases q.len(),
{
    if q.len() == 0 {
        assert(rest + q =~= rest);
    } else {
        assert((rest + q).last() == q.last());
        assert(q.last() == q[q.len() - 1]);
        assert((rest + q).drop_last() =~= rest + q.drop_last());
        assert forall|i: int| 0 <= i < q.drop_last().len() implies in_class(
            #[trigger] q.drop_last()[i],
            k,
        ) by {
            assert(q.drop_last()[i] == q[i]);
        }
        lemma_trim_end_suffix(rest, q.drop_last(), k);
    }
}

/// Characters that a tuple of padded decimal fields is made of.
spec fn tuple_char(c: char) -> bool {
    is_whitespace(c) || is_dec_digit(c) || c == ','
}

proof fn lemma_padded_field(before: Seq<char>, n: u8, after: Seq<char>)
    requires
        all_whitespace(before),
        all_whitespace(after),
    ensures
        trim_class(padded_dec(before, n, after), CharClass::Whitespace) == dec_string(n as nat),
        !padded_dec(before, n, after).contains(','),
        padded_dec(before, n, after).len() > 0,
        forall|i: int|
            0 <= i < padded_dec(before, n, after).len() ==> (is_whitespace(
                #[trigger] padded_dec(before, n, after)[i],
            ) || is_dec_digit(padded_dec(before, n, after)[i])),
{
    let d = dec_string(n as nat);
    let f = padded_dec(before, n, after);
    lemma_dec_string(n as nat);
    assert(is_dec_digit(d[0]));
    assert(is_dec_digit(d[d.len() - 1]));
    assert(f =~= before + (d + after));
    lemma_trim_start_prefix(before, d + after, CharClass::Whitespace);
    assert((d + after)[0] == d[0]);
    assert(trim_start_class(d + after, CharClass::Whitespace) == d + after);
    lemma_trim_end_suffix(d, after, CharClass::Whitespace);
    assert(d.last() == d[d.len() - 1]);
    assert(trim_end_class(d, CharClass::Whitespace) == d);
    assert forall|i: int| 0 <= i < f.len() implies (is_whitespace(#[trigger] f[i]) || is_dec_digit(
        f[i],
    )) by {
        if i < before.len() {
            assert(f[i] == before[i]);
        } else if i < before.len() + d.len() {
            assert(f[i] == d[i - before.len()]);
        } else {
            assert(f[i] == after[i - before.len() - d.len()]);
        }
    }
    assert(!f.contains(',')) by {
        if f.contains(',') {
            let j = choose|j: int| 0 <= j < f.len() && f[j] == ',';
            assert(is_whitespace(f[j]) || is_dec_digit(f[j]));
        }
    }
}

proof fn lemma_join_chars(fields: Seq<Seq<char>>)
    requires
        fields.len() >= 1,
        forall|i: int|
            0 <= i < fields.len() ==> (#[trigger] fields[i]).len() > 0 && forall|j: int|
                0 <= j < fields[i].len() ==> (is_whitespace(#[trigger] fields[i][j])
                    || is_dec_digit(fields[i][j])),
    ensures
        comma_join(fields).len() > 0,
        forall|j: int|
            0 <= j < comma_join(fields).len() ==> tuple_char(#[trigger] comma_join(fields)[j]),
        comma_join(fields)[0] == fields[0][0],
        comma_join(fields).last() == fields.last().last(),
    decreases fields.len(),
{
    if fields.len() == 1 {
        let f = fields[0];
        assert forall|j: int| 0 <= j < f.len() implies tuple_char(#[trigger] f[j]) by {
            assert(is_whitespace(f[j]) || is_dec_digit(f[j]));
        }
    } else {
        let g = fields.drop_last();
        assert forall|i: int|
            0 <= i < g.len() implies (#[trigger] g[i]).len() > 0 && forall|j: int|
                0 <= j < g[i].len() ==> (is_whitespace(#[trigger] g[i][j]) || is_dec_digit(
                    g[i][j],
                )) by {
            assert(g[i] == fields[i]);
        }
        lemma_join_chars(g);
        let a = comma_join(g);
        let l = fields.last();
        assert(l == fields[fields.len() - 1]);
        let c = comma_join(fields);
        assert(c == a + seq![','] + l);
        assert forall|j: int| 0 <= j < c.len() implies tuple_char(#[trigger] c[j]) by {
            if j < a.len() {
                assert(c[j] == a[j]);
            } else if j == a.len() {
                assert(c[j] == ',');
            } else {
                assert(c[j] == l[j - a.len() - 1]);
                assert(is_whitespace(l[j - a.len() - 1]) || is_dec_digit(l[j - a.len() - 1]));
            }
        }
        assert(c[0] == a[0]);
        assert(g[0] == fields[0]);
        assert(c.last() == l.last());
    }
}

proof fn lemma_tuple_fields(fields: Seq<Seq<char>>, parens: bool)
    requires
        fields.len() >= 1,
        forall|i: int|
            0 <= i < fields.len() ==> (#[trigger] fields[i]).len() > 0 && !fields[i].contains(
                ',',
            ) && forall|j: int|
                0 <= j < fields[i].len() ==> (is_whitespace(#[trigger] fields[i][j])
                    || is_dec_digit(fields[i][j])),
    ensures
        split_commas(trim_class(parenthesized(comma_join(fields), parens), CharClass::Paren))
            == fields,
{
    let inner = comma_join(fields);
    lemma_join_chars(fields);
    lemma_split_join(fields);
    let c0 = inner[0];
    let cl = inner.last();
    assert(tuple_char(c0));
    assert(cl == inner[inner.len() - 1]);
    assert(tuple_char(cl));
    assert(!in_class(c0, CharClass::Paren));
    assert(!in_class(cl, CharClass::Paren));
    assert(trim_start_class(inner, CharClass::Paren) == inner);
    assert(trim_end_class(inner, CharClass::Paren) == inner);
    if parens {
        let t = seq!['('] + inner + seq![')'];
        let u = inner + seq![')'];
        assert(t[0] == '(');
        assert(t.drop_first() =~= u);
        assert(u[0] == c0);
        assert(trim_start_class(u, CharClass::Paren) == u);
        assert(trim_start_class(t, CharClass::Paren) == u);
        assert(u.last() == ')');
        assert(u.drop_last() =~= inner);
        assert(trim_end_class(u, CharClass::Paren) == inner);
    }
}

/// Channels written in decimal, separated by commas, each padded with any
/// whitespace before and after it, optionally in parentheses, parse back
/// to those channels; with three fields alpha is 255.  So whitespace around
/// any field, the alpha field included, does not change the result, and
/// every decimal value of a channel is read.
pub proof fn lemma_parse_tuple_round_trip(
    r: u8,
    g: u8,
    b: u8,
    a: u8,
    pads: Seq<Seq<char>>,
    parens: bool,
)
    requires
        pads.len() == 8,
        forall|i: int| 0 <= i < 8 ==> all_whitespace(#[trigger] pads[i]),
    ensures
        spec_parse_tuple(
            parenthesized(
                comma_join(
                    seq![
                        padded_dec(pads[0], r, pads[1]),
                        padded_dec(pads[2], g, pads[3]),
                        padded_dec(pads[4], b, pads[5]),
                        padded_dec(pads[6], a, pads[7]),
                    ],
                ),
                parens,
            ),
        ) == Some((r, g, b, a)),
        spec_parse_tuple(
            parenthesized(
                comma_join(
                    seq![
                        padded_dec(pads[0], r, pads[1]),
                        padded_dec(pads[2], g, pads[3]),
                        padded_dec(pads[4], b, pads[5]),
                    ],
                ),
                parens,
            ),
        ) == Some((r, g, b, 255u8)),
{
    assert(all_whitespace(pads[0]) && all_whitespace(pads[1]) && all_whitespace(pads[2])
        && all_whitespace(pads[3]) && all_whitespace(pads[4]) && all_whitespace(pads[5])
        && all_whitespace(pads[6]) && all_whitespace(pads[7]));
    let f0 = padded_dec(pads[0], r, pads[1]);
    let f1 = padded_dec(pads[2], g, pads[3]);
    let f2 = padded_dec(pads[4], b, pads[5]);
    let f3 = padded_dec(pads[6], a, pads[7]);
    lemma_padded_field(pads[0], r, pads[1]);
    lemma_padded_field(pads[2], g, pads[3]);
    lemma_padded_field(pads[4], b, pads[5]);
    lemma_padded_field(pads[6], a, pads[7]);
    lemma_parse_u8_round_trip(r);
    lemma_parse_u8_round_trip(g);
    lemma_parse_u8_round_trip(b);
    lemma_parse_u8_round_trip(a);
    let four = seq![f0, f1, f2, f3];
    let three = seq![f0, f1, f2];
    lemma_tuple_fields(four, parens);
    lemma_tuple_fields(three, parens);
}

/// Only three or four fields make a tuple: decimal fields padded with
/// whitespace, in any other number, optionally in parentheses, are refused.
pub proof fn lemma_parse_tuple_field_count(values: Seq<u8>, pads: Seq<Seq<char>>, parens: bool)
    requires
        values.len() != 3,
        values.len() != 4,
        pads.len() == 2 * values.len(),
        forall|i: int| 0 <= i < pads.len() ==> all_whitespace(#[trigger] pads[i]),
    ensures
        spec_parse_tuple(
            parenthesized(
                comma_join(
                    Seq::new(
                        values.len(),
                        |i: int| padded_dec(pads[2 * i], values[i], pads[2 * i + 1]),
                    ),
                ),
                parens,
            ),
        ) is None,
{
    let fields = Seq::new(
        values.len(),
        |i: int| padded_dec(pads[2 * i], values[i], pads[2 * i + 1]),
    );
    if values.len() == 0 {
        assert(comma_join(fields) =~= Seq::<char>::empty());
        let t = parenthesized(comma_join(fields), parens);
        if parens {
            assert(t =~= seq!['(', ')']);
            assert(t.drop_first() =~= seq![')']);
            let e = Seq::<char>::empty();
            let c = seq![')'];
            assert(c.drop_first() =~= e);
            assert(c[0] == ')');
            assert(trim_start_class(e, CharClass::Paren) == e);
            assert(trim_start_class(c, CharClass::Paren) == trim_start_class(e, CharClass::Paren));
            assert(t[0] == '(');
            assert(trim_start_class(t, CharClass::Paren) == trim_start_class(c, CharClass::Paren));
            assert(trim_end_class(e, CharClass::Paren) == e);
        }
        assert(trim_class(t, CharClass::Paren) =~= Seq::<char>::empty());
    } else {
        assert forall|i: int|
            0 <= i < fields.len() implies (#[trigger] fields[i]).len() > 0 && !fields[i].contains(
                ',',
            ) && forall|j: int|
                0 <= j < fields[i].len() ==> (is_whitespace(#[trigger] fields[i][j])
                    || is_dec_digit(fields[i][j])) by {
            assert(all_whitespace(pads[2 * i]));
            assert(all_whitespace(pads[2 * i + 1]));
            lemma_padded_field(pads[2 * i], values[i], pads[2 * i + 1]);
        }
        lemma_tuple_fields(fields, parens);
    }
}

/// A decimal number above 255 is not a channel.
pub proof fn lemma_parse_u8_out_of_range(n: nat)
    requires
        n > 255,
    ensures
        spec_parse_u8(dec_string(n)) is None,
{
    lemma_dec_string(n);
    let ds = dec_string(n);
    assert(is_dec_digit(ds[0]));
    assert(digits_part(ds) == ds);
}

/// The two hex digits of `n`, high nibble first, in lowercase or in
/// uppercase.
pub open spec fn hex_byte(n: u8, upper: bool) -> Seq<char> {
    let ds = if upper {
        upper_hex_digits()
    } else {
        lower_hex_digits()
    };
    seq![ds[(n / 16) as int], ds[(n % 16) as int]]
}

proof fn lemma_hex_byte(n: u8, upper: bool)
    ensures
        hex_byte(n, upper).len() == 2,
        hex_pair(hex_byte(n, upper)[0], hex_byte(n, upper)[1]) == Some(n),
        hex_byte(n, upper)[0] != '#',
{
    lemma_hex_digit_values('0');
    let h = hex_byte(n, upper);
    let x = (n / 16) as int;
    let y = (n % 16) as int;
    assert(0 <= x < 16 && 0 <= y < 16);
    if upper {
        assert(hex_digit(upper_hex_digits()[x]) == Some(x as u8));
        assert(hex_digit(upper_hex_digits()[y]) == Some(y as u8));
    } else {
        assert(hex_digit(lower_hex_digits()[x]) == Some(x as u8));
        assert(hex_digit(lower_hex_digits()[y]) == Some(y as u8));
    }
    assert(16 * x + y == n);
    assert(hex_digit(h[0]).is_some());
    assert(hex_digit('#') is None);
}

/// Channels written as two hex digits each, in either case, parse back to
/// those channels: `RRGGBB` (alpha 255) and `RRGGBBAA` at the start of a
/// string whatever follows, and a whole hex color after any number of `#`.
pub proof fn lemma_hex_round_trip(
    r: u8,
    g: u8,
    b: u8,
    a: u8,
    upper: bool,
    hashes: nat,
    rest: Seq<char>,
)
    ensures
        spec_rgb_hex(hex_byte(r, upper) + hex_byte(g, upper) + hex_byte(b, upper) + rest) == Some(
            (r, g, b, 255u8),
        ),
        spec_rgba_hex(
            hex_byte(r, upper) + hex_byte(g, upper) + hex_byte(b, upper) + hex_byte(a, upper)
                + rest,
        ) == Some((r, g, b, a)),
        spec_from_hex(
            Seq::new(hashes, |i: int| '#') + hex_byte(r, upper) + hex_byte(g, upper) + hex_byte(
                b,
                upper,
            ),
        ) == Some((r, g, b, 255u8)),
        spec_from_hex(
            Seq::new(hashes, |i: int| '#') + hex_byte(r, upper) + hex_byte(g, upper) + hex_byte(
                b,
                upper,
            ) + hex_byte(a, upper),
        ) == Some((r, g, b, a)),
{
    lemma_hex_byte(r, upper);
    lemma_hex_byte(g, upper);
    lemma_hex_byte(b, upper);
    lemma_hex_byte(a, upper);
    let hr = hex_byte(r, upper);
    let hg = hex_byte(g, upper);
    let hb = hex_byte(b, upper);
    let ha = hex_byte(a, upper);
    let six = hr + hg + hb;
    let eight = hr + hg + hb + ha;
    let s6 = six + rest;
    let s8 = eight + rest;
    assert(s6[0] == hr[0] && s6[1] == hr[1] && s6[2] == hg[0] && s6[3] == hg[1] && s6[4] == hb[0]
        && s6[5] == hb[1]);
    assert(s8[0] == hr[0] && s8[1] == hr[1] && s8[2] == hg[0] && s8[3] == hg[1] && s8[4] == hb[0]
        && s8[5] == hb[1] && s8[6] == ha[0] && s8[7] == ha[1]);
    assert(six[0] == hr[0] && six[1] == hr[1] && six[2] == hg[0] && six[3] == hg[1] && six[4]
        == hb[0] && six[5] == hb[1]);
    assert(eight[0] == hr[0] && eight[1] == hr[1] && eight[2] == hg[0] && eight[3] == hg[1]
        && eight[4] == hb[0] && eight[5] == hb[1] && eight[6] == ha[0] && eight[7] == ha[1]);
    let p = Seq::new(hashes, |i: int| '#');
    lemma_trim_start_prefix(p, six, CharClass::Hash);
    lemma_trim_start_prefix(p, eight, CharClass::Hash);
    assert(trim_start_class(six, CharClass::Hash) == six);
    assert(trim_start_class(eight, CharClass::Hash) == eight);
    assert(p + hr + hg + hb =~= p + six);
    assert(p + hr + hg + hb + ha =~= p + eight);
}

} // verus!
