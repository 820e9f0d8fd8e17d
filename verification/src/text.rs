//! Text as sequences of characters: comparison, decimal and hexadecimal
//! rendering, trimming, padding and ASCII case folding.
use vstd::prelude::*;
use vstd::string::*;

verus! {

/// `String::push` appends one character.
pub assume_specification[ String::push ](s: &mut String, c: char)
    ensures
        final(s)@ == old(s)@.push(c),
;

/// The views of the elements, in order.
pub open spec fn views<T: View>(s: Seq<T>) -> Seq<T::V> {
    Seq::new(s.len(), |i: int| s[i]@)
}

pub broadcast proof fn lemma_views_push<T: View>(s: Seq<T>, x: T)
    ensures
        #[trigger] views(s.push(x)) == views(s).push(x@),
{
    assert(views(s.push(x)) =~= views(s).push(x@));
}

/// A deep copy, which is all that a contract can say of a copy of a `String` or a `Vec`.
pub trait Dup: View + Sized {
    fn dup(&self) -> (copy: Self)
        ensures
            copy@ == self@,
    ;
}

impl Dup for String {
    fn dup(&self) -> (copy: Self) {
        self.clone()
    }
}

/// Deep copy of every element.
pub fn dup_all<T: Dup>(items: &Vec<T>) -> (copy: Vec<T>)
    ensures
        views(copy@) == views(items@),
{
    let mut copy: Vec<T> = Vec::new();
    let mut i: usize = 0;
    while i < items.len()
        invariant
            i <= items.len(),
            copy@.len() == i,
            forall|k: int| 0 <= k < i ==> (#[trigger] copy@[k])@ == items@[k]@,
        decreases items.len() - i,
    {
        copy.push(items[i].dup());
        i += 1;
    }
    assert(views(copy@) =~= views(items@));
    copy
}

/// Deep copy of an optional string.
pub fn dup_option(item: &Option<String>) -> (copy: Option<String>)
    ensures
        option_text(copy) == option_text(*item),
{
    match item {
        Some(s) => Some(s.clone()),
        None => None,
    }
}

/// The text an optional string holds.
pub open spec fn option_text(item: Option<String>) -> Option<Seq<char>> {
    match item {
        Some(s) => Some(s@),
        None => None,
    }
}

/// The characters of a string, in order.
pub fn chars_of(s: &str) -> (out: Vec<char>)
    ensures
        out@ == s@,
{
    let mut out: Vec<char> = Vec::new();
    for c in it: s.chars()
        invariant
            out@ == s@.take(it.index()),
            it.seq() == s@,
    {
        out.push(c);
        assert(s@.take(it.index() + 1) =~= s@.take(it.index()).push(c));
    }
    assert(s@.take(s@.len() as int) =~= s@);
    out
}

/// The string made of the characters `from..to`.
pub fn slice_text(chars: &Vec<char>, from: usize, to: usize) -> (out: String)
    requires
        from <= to <= chars@.len(),
    ensures
        out@ == chars@.subrange(from as int, to as int),
{
    let mut out = String::new();
    let mut i: usize = from;
    while i < to
        invariant
            from <= i <= to <= chars@.len(),
            out@ == chars@.subrange(from as int, i as int),
        decreases to - i,
    {
        out.push(chars[i]);
        i += 1;
        assert(chars@.subrange(from as int, i as int) =~= chars@.subrange(
            from as int,
            i - 1,
        ).push(chars@[i - 1]));
    }
    out
}

/// Whether two character vectors hold the same text.
fn same_chars(a: &Vec<char>, b: &Vec<char>) -> (r: bool)
    ensures
        r == (a@ == b@),
{
    if a.len() != b.len() {
        return false;
    }
    let mut i: usize = 0;
    while i < a.len()
        invariant
            i <= a@.len(),
            a@.len() == b@.len(),
            forall|k: int| 0 <= k < i ==> a@[k] == b@[k],
        decreases a@.len() - i,
    {
        if a[i] != b[i] {
            return false;
        }
        i += 1;
    }
    assert(a@ =~= b@);
    true
}

/// Whether two strings hold the same text.
pub fn same(a: &str, b: &str) -> (r: bool)
    ensures
        r == (a@ == b@),
{
    same_chars(&chars_of(a), &chars_of(b))
}

/// Whether `text` occurs in `list`.
pub fn contains_text(list: &Vec<String>, text: &str) -> (r: bool)
    ensures
        r == views(list@).contains(text@),
{
    let mut i: usize = 0;
    while i < list.len()
        invariant
            i <= list@.len(),
            forall|k: int| 0 <= k < i ==> (#[trigger] list@[k])@ != text@,
        decreases list@.len() - i,
    {
        if same(list[i].as_str(), text) {
            assert(views(list@)[i as int] == text@);
            return true;
        }
        i += 1;
    }
    assert forall|k: int| 0 <= k < views(list@).len() implies views(list@)[k] != text@ by {
        assert(list@[k]@ != text@);
    }
    false
}

/// `prefix` stands at the start of `s`.
pub open spec fn has_prefix(s: Seq<char>, prefix: Seq<char>) -> bool {
    prefix.len() <= s.len() && s.take(prefix.len() as int) == prefix
}

/// `suffix` stands at the end of `s`.
pub open spec fn has_suffix(s: Seq<char>, suffix: Seq<char>) -> bool {
    suffix.len() <= s.len() && s.skip(s.len() - suffix.len()) == suffix
}

/// `part` stands somewhere in `s`.
pub open spec fn has_part(s: Seq<char>, part: Seq<char>) -> bool {
    exists|i: int| 0 <= i <= s.len() - part.len() && #[trigger] stands_at(s, i, part)
}

/// `part` stands in `s` from position `i` on.
pub open spec fn stands_at(s: Seq<char>, i: int, part: Seq<char>) -> bool {
    s.subrange(i, i + part.len()) == part
}

/// What stands in one of two texts stands in the one followed by the other.
pub proof fn lemma_part_of_sum(a: Seq<char>, b: Seq<char>, part: Seq<char>)
    requires
        has_part(a, part) || has_part(b, part),
    ensures
        has_part(a + b, part),
{
    if has_part(a, part) {
        let i = choose|i: int| 0 <= i <= a.len() - part.len() && #[trigger] stands_at(a, i, part);
        assert((a + b).subrange(i, i + part.len()) =~= a.subrange(i, i + part.len()));
        assert(stands_at(a + b, i, part));
    } else {
        let i = choose|i: int| 0 <= i <= b.len() - part.len() && #[trigger] stands_at(b, i, part);
        let k = a.len() + i;
        assert((a + b).subrange(k, k + part.len()) =~= b.subrange(i, i + part.len()));
        assert(stands_at(a + b, k, part));
    }
}

pub proof fn lemma_part_of_itself(s: Seq<char>)
    ensures
        has_part(s, s),
{
    assert(s.subrange(0, s.len() as int) =~= s);
    assert(stands_at(s, 0, s));
}

fn chars_match_at(s: &Vec<char>, at: usize, part: &Vec<char>) -> (r: bool)
    requires
        at + part@.len() <= s@.len(),
    ensures
        r == (s@.subrange(at as int, at + part@.len()) == part@),
{
    let mut i: usize = 0;
    let total: usize = s.len();
    while i < part.len()
        invariant
            i <= part@.len(),
            at + part@.len() <= s@.len(),
            s@.len() == total,
            forall|k: int| 0 <= k < i ==> s@[at + k] == part@[k],
        decreases part@.len() - i,
    {
        if s[at + i] != part[i] {
            assert(s@.subrange(at as int, at + part@.len())[i as int] != part@[i as int]);
            return false;
        }
        i += 1;
    }
    assert(s@.subrange(at as int, at + part@.len()) =~= part@);
    true
}

pub fn starts_with(s: &str, prefix: &str) -> (r: bool)
    ensures
        r == has_prefix(s@, prefix@),
{
    let s = chars_of(s);
    let prefix = chars_of(prefix);
    if prefix.len() > s.len() {
        return false;
    }
    assert(s@.subrange(0, prefix@.len() as int) =~= s@.take(prefix@.len() as int));
    chars_match_at(&s, 0, &prefix)
}

pub fn ends_with(s: &str, suffix: &str) -> (r: bool)
    ensures
        r == has_suffix(s@, suffix@),
{
    let s = chars_of(s);
    let suffix = chars_of(suffix);
    if suffix.len() > s.len() {
        return false;
    }
    let at: usize = s.len() - suffix.len();
    assert(s@.subrange(at as int, at + suffix@.len()) =~= s@.skip(at as int));
    chars_match_at(&s, at, &suffix)
}

pub fn contains_part(s: &str, part: &str) -> (r: bool)
    ensures
        r == has_part(s@, part@),
{
    let chars = chars_of(s);
    let wanted = chars_of(part);
    if wanted.len() > chars.len() {
        return false;
    }
    let last: usize = chars.len() - wanted.len();
    let mut i: usize = 0;
    loop
        invariant
            chars@ == s@,
            wanted@ == part@,
            last == chars@.len() - wanted@.len(),
            i <= last,
            forall|k: int| 0 <= k < i ==> !#[trigger] stands_at(chars@, k, wanted@),
        decreases last - i,
    {
        if chars_match_at(&chars, i, &wanted) {
            assert(stands_at(chars@, i as int, wanted@));
            return true;
        }
        if i == last {
            return false;
        }
        i += 1;
    }
}

/// The decimal digit of `d`.
pub open spec fn digit(d: int) -> char {
    if 0 <= d < 10 {
        (('0' as int) + d) as char
    } else {
        '?'
    }
}

/// `n` in decimal, without leading zeros.
pub open spec fn decimal(n: nat) -> Seq<char>
    decreases n,
{
    if n < 10 {
        seq![digit(n as int)]
    } else {
        decimal(n / 10).push(digit((n % 10) as int))
    }
}

/// A decimal holds digits alone.
pub proof fn lemma_decimal_digits(n: nat)
    ensures
        forall|i: int| 0 <= i < decimal(n).len() ==> '0' <= #[trigger] decimal(n)[i] <= '9',
    decreases n,
{
    if n >= 10 {
        lemma_decimal_digits(n / 10);
        assert forall|i: int| 0 <= i < decimal(n).len() implies '0' <= #[trigger] decimal(n)[i]
            <= '9' by {
            if i < decimal(n / 10).len() {
                assert(decimal(n)[i] == decimal(n / 10)[i]);
            }
        }
    }
}

pub proof fn lemma_decimal_nonempty(n: nat)
    ensures
        decimal(n).len() > 0,
    decreases n,
{
    if n >= 10 {
        lemma_decimal_nonempty(n / 10);
    }
}

pub fn digit_char(d: u8) -> (c: char)
    requires
        d < 10,
    ensures
        c == digit(d as int),
{
    (48u8 + d) as char
}

/// `n` in decimal.
pub fn decimal_text(n: u128) -> (out: String)
    ensures
        out@ == decimal(n as nat),
    decreases n,
{
    if n < 10 {
        let mut out = String::new();
        out.push(digit_char(n as u8));
        assert(out@ =~= decimal(n as nat));
        out
    } else {
        let mut out = decimal_text(n / 10);
        out.push(digit_char((n % 10) as u8));
        out
    }
}

/// `n` in decimal, with zeros in front up to `width` digits.
pub open spec fn zero_padded(n: nat, width: nat) -> Seq<char> {
    let digits = decimal(n);
    if digits.len() >= width {
        digits
    } else {
        repeated('0', (width - digits.len()) as nat) + digits
    }
}

/// A padded decimal holds digits alone.
pub proof fn lemma_zero_padded_digits(n: nat, width: nat)
    ensures
        forall|i: int|
            0 <= i < zero_padded(n, width).len() ==> '0' <= #[trigger] zero_padded(n, width)[i] <= '9',
        zero_padded(n, width).len() > 0,
{
    lemma_decimal_digits(n);
    lemma_decimal_nonempty(n);
}

/// `n` copies of `c`.
pub open spec fn repeated(c: char, n: nat) -> Seq<char> {
    Seq::new(n, |i: int| c)
}

pub fn repeat_char(c: char, n: usize) -> (out: String)
    ensures
        out@ == repeated(c, n as nat),
{
    let mut out = String::new();
    let mut i: usize = 0;
    while i < n
        invariant
            i <= n,
            out@ == repeated(c, i as nat),
        decreases n - i,
    {
        out.push(c);
        i += 1;
        assert(repeated(c, i as nat) =~= repeated(c, (i - 1) as nat).push(c));
    }
    assert(out@ =~= repeated(c, n as nat));
    out
}

pub fn zero_padded_text(n: u64, width: usize) -> (out: String)
    ensures
        out@ == zero_padded(n as nat, width as nat),
{
    let digits = decimal_text(n as u128);
    let len: usize = digits.as_str().unicode_len();
    if len >= width {
        digits
    } else {
        repeat_char('0', width - len).concat(digits.as_str())
    }
}

/// `s` with spaces in front up to `width` characters.
pub open spec fn padded_left(s: Seq<char>, width: nat) -> Seq<char> {
    if s.len() >= width {
        s
    } else {
        repeated(' ', (width - s.len()) as nat) + s
    }
}

/// `s` with spaces behind up to `width` characters.
pub open spec fn padded_right(s: Seq<char>, width: nat) -> Seq<char> {
    if s.len() >= width {
        s
    } else {
        s + repeated(' ', (width - s.len()) as nat)
    }
}

pub fn pad_left(s: &str, width: usize) -> (out: String)
    ensures
        out@ == padded_left(s@, width as nat),
{
    let len: usize = s.unicode_len();
    if len >= width {
        s.to_owned()
    } else {
        repeat_char(' ', width - len).concat(s)
    }
}

pub fn pad_right(s: &str, width: usize) -> (out: String)
    ensures
        out@ == padded_right(s@, width as nat),
{
    let len: usize = s.unicode_len();
    if len >= width {
        s.to_owned()
    } else {
        s.to_owned().concat(repeat_char(' ', width - len).as_str())
    }
}

/// The hexadecimal digit of `d`, in lower case.
pub open spec fn hex_digit(d: int) -> char {
    if 0 <= d < 10 {
        (('0' as int) + d) as char
    } else if d < 16 {
        (('a' as int) + (d - 10)) as char
    } else {
        '?'
    }
}

/// The `width` lowest hexadecimal digits of `n`.
pub open spec fn hex(n: nat, width: nat) -> Seq<char>
    decreases width,
{
    if width == 0 {
        Seq::empty()
    } else {
        hex(n / 16, (width - 1) as nat).push(hex_digit((n % 16) as int))
    }
}

/// The `width` lowest hexadecimal digits of `n`.
pub fn hex_text(n: u64, width: usize) -> (out: String)
    ensures
        out@ == hex(n as nat, width as nat),
    decreases width,
{
    if width == 0 {
        let out = String::new();
        assert(out@ =~= hex(n as nat, 0));
        out
    } else {
        let mut out = hex_text(n / 16, width - 1);
        let d: u8 = (n % 16) as u8;
        if d < 10 {
            out.push((48u8 + d) as char);
        } else {
            out.push((87u8 + d) as char);
        }
        out
    }
}

/// ASCII lower case of one character.
pub open spec fn lower(c: char) -> char {
    if 'A' <= c <= 'Z' {
        ((c as int) + 32) as char
    } else {
        c
    }
}

/// ASCII lower case of a text.
pub open spec fn lowered(s: Seq<char>) -> Seq<char> {
    Seq::new(s.len(), |i: int| lower(s[i]))
}

pub fn lower_char(c: char) -> (r: char)
    ensures
        r == lower(c),
{
    if 'A' <= c && c <= 'Z' {
        ((c as u8) + 32) as char
    } else {
        c
    }
}

pub fn to_ascii_lower(s: &str) -> (out: String)
    ensures
        out@ == lowered(s@),
{
    let chars = chars_of(s);
    let mut out = String::new();
    let mut i: usize = 0;
    while i < chars.len()
        invariant
            i <= chars@.len(),
            chars@ == s@,
            out@ == lowered(s@).take(i as int),
        decreases chars@.len() - i,
    {
        out.push(lower_char(chars[i]));
        i += 1;
        assert(lowered(s@).take(i as int) =~= lowered(s@).take(i - 1).push(lower(s@[i - 1])));
    }
    assert(lowered(s@).take(s@.len() as int) =~= lowered(s@));
    out
}

pub fn same_ignoring_case(a: &str, b: &str) -> (r: bool)
    ensures
        r == (lowered(a@) == lowered(b@)),
{
    same(to_ascii_lower(a).as_str(), to_ascii_lower(b).as_str())
}

/// Unicode white space.
pub open spec fn is_space(c: char) -> bool {
    ||| '\u{9}' <= c <= '\u{d}'
    ||| c == ' '
    ||| c == '\u{85}'
    ||| c == '\u{a0}'
    ||| c == '\u{1680}'
    ||| '\u{2000}' <= c <= '\u{200a}'
    ||| c == '\u{2028}'
    ||| c == '\u{2029}'
    ||| c == '\u{202f}'
    ||| c == '\u{205f}'
    ||| c == '\u{3000}'
}

pub fn is_space_char(c: char) -> (r: bool)
    ensures
        r == is_space(c),
{
    ('\u{9}' <= c && c <= '\u{d}') || c == ' ' || c == '\u{85}' || c == '\u{a0}' || c == '\u{1680}'
        || ('\u{2000}' <= c && c <= '\u{200a}') || c == '\u{2028}' || c == '\u{2029}'
        || c == '\u{202f}' || c == '\u{205f}' || c == '\u{3000}'
}

/// How many characters of white space `s` starts with.
pub open spec fn leading_space(s: Seq<char>) -> nat
    decreases s.len(),
{
    if s.len() > 0 && is_space(s[0]) {
        1 + leading_space(s.skip(1))
    } else {
        0
    }
}

/// How many characters of white space `s` ends with.
pub open spec fn trailing_space(s: Seq<char>) -> nat
    decreases s.len(),
{
    if s.len() > 0 && is_space(s.last()) {
        1 + trailing_space(s.drop_last())
    } else {
        0
    }
}

/// `s` without the white space around it.
pub open spec fn trimmed(s: Seq<char>) -> Seq<char> {
    let rest = s.skip(leading_space(s) as int);
    rest.take(rest.len() - trailing_space(rest))
}

pub proof fn lemma_leading_space_at(s: Seq<char>, n: int)
    requires
        0 <= n <= s.len(),
        forall|i: int| 0 <= i < n ==> is_space(s[i]),
        n < s.len() ==> !is_space(s[n]),
    ensures
        leading_space(s) == n,
    decreases n,
{
    if n > 0 {
        assert(is_space(s[0]));
        assert forall|i: int| 0 <= i < n - 1 implies is_space(s.skip(1)[i]) by {
            assert(s.skip(1)[i] == s[i + 1]);
        }
        lemma_leading_space_at(s.skip(1), n - 1);
    }
}

proof fn lemma_trailing_space_at(s: Seq<char>, n: int)
    requires
        0 <= n <= s.len(),
        forall|i: int| s.len() - n <= i < s.len() ==> is_space(s[i]),
        n < s.len() ==> !is_space(s[s.len() - n - 1]),
    ensures
        trailing_space(s) == n,
    decreases n,
{
    if n > 0 {
        assert(is_space(s[s.len() - 1]));
        lemma_trailing_space_at(s.drop_last(), n - 1);
    }
}

pub fn trim_chars(s: &Vec<char>) -> (out: Vec<char>)
    ensures
        out@ == trimmed(s@),
{
    let mut from: usize = 0;
    while from < s.len() && is_space_char(s[from])
        invariant
            from <= s@.len(),
            forall|i: int| 0 <= i < from ==> is_space(s@[i]),
        decreases s@.len() - from,
    {
        from += 1;
    }
    proof {
        lemma_leading_space_at(s@, from as int);
    }
    let ghost rest = s@.skip(from as int);
    let mut to: usize = s.len();
    while to > from && is_space_char(s[to - 1])
        invariant
            from <= to <= s@.len(),
            forall|i: int| to <= i < s@.len() ==> is_space(s@[i]),
        decreases to,
    {
        to -= 1;
    }
    proof {
        assert forall|i: int| rest.len() - (s@.len() - to) <= i < rest.len() implies is_space(
            rest[i],
        ) by {
            assert(rest[i] == s@[from + i]);
        }
        lemma_trailing_space_at(rest, s@.len() - to);
    }
    let mut out: Vec<char> = Vec::new();
    let mut i: usize = from;
    while i < to
        invariant
            from <= i <= to <= s@.len(),
            out@ == s@.subrange(from as int, i as int),
        decreases to - i,
    {
        out.push(s[i]);
        i += 1;
        assert(s@.subrange(from as int, i as int) =~= s@.subrange(from as int, i - 1).push(
            s@[i - 1],
        ));
    }
    assert(out@ =~= trimmed(s@));
    out
}

/// Order of texts by their characters, first difference first. Bytes of UTF-8 order the same way.
pub open spec fn text_le(a: Seq<char>, b: Seq<char>) -> bool
    decreases a.len(),
{
    if a.len() == 0 {
        true
    } else if b.len() == 0 {
        false
    } else if a[0] != b[0] {
        a[0] < b[0]
    } else {
        text_le(a.skip(1), b.skip(1))
    }
}

pub proof fn lemma_text_le_total(a: Seq<char>, b: Seq<char>)
    ensures
        text_le(a, b) || text_le(b, a),
        text_le(a, b) && text_le(b, a) ==> a == b,
    decreases a.len(),
{
    if a.len() > 0 && b.len() > 0 && a[0] == b[0] {
        lemma_text_le_total(a.skip(1), b.skip(1));
        if text_le(a, b) && text_le(b, a) {
            assert(a =~= seq![a[0]] + a.skip(1));
            assert(b =~= seq![b[0]] + b.skip(1));
        }
    } else if a.len() == 0 && b.len() == 0 {
        assert(a =~= b);
    }
}

pub proof fn lemma_text_le_transitive(a: Seq<char>, b: Seq<char>, c: Seq<char>)
    requires
        text_le(a, b),
        text_le(b, c),
    ensures
        text_le(a, c),
    decreases a.len(),
{
    if a.len() > 0 && b.len() > 0 && c.len() > 0 && a[0] == b[0] && b[0] == c[0] {
        lemma_text_le_transitive(a.skip(1), b.skip(1), c.skip(1));
    }
}

fn chars_le(a: &Vec<char>, b: &Vec<char>) -> (r: bool)
    ensures
        r == text_le(a@, b@),
{
    let mut i: usize = 0;
    assert(a@.skip(0) =~= a@ && b@.skip(0) =~= b@);
    while i < a.len() && i < b.len()
        invariant
            i <= a@.len(),
            i <= b@.len(),
            text_le(a@, b@) == text_le(a@.skip(i as int), b@.skip(i as int)),
        decreases a@.len() - i,
    {
        if a[i] != b[i] {
            return a[i] < b[i];
        }
        assert(a@.skip(i as int).skip(1) =~= a@.skip(i + 1));
        assert(b@.skip(i as int).skip(1) =~= b@.skip(i + 1));
        i += 1;
    }
    i >= a.len()
}

/// Whether `a` comes before `b` or is equal to it.
pub fn text_at_most(a: &str, b: &str) -> (r: bool)
    ensures
        r == text_le(a@, b@),
{
    chars_le(&chars_of(a), &chars_of(b))
}

/// The parts joined, with `separator` between two neighbours.
pub open spec fn joined(parts: Seq<Seq<char>>, separator: Seq<char>) -> Seq<char>
    decreases parts.len(),
{
    if parts.len() == 0 {
        Seq::empty()
    } else if parts.len() == 1 {
        parts[0]
    } else {
        joined(parts.drop_last(), separator) + separator + parts.last()
    }
}

pub fn join_text(parts: &Vec<String>, separator: &str) -> (out: String)
    ensures
        out@ == joined(views(parts@), separator@),
{
    if parts.len() == 0 {
        let out = String::new();
        assert(out@ =~= joined(views(parts@), separator@));
        return out;
    }
    let mut out = parts[0].clone();
    let mut i: usize = 1;
    let ghost all = views(parts@);
    assert(all.take(1) =~= seq![all[0]]);
    while i < parts.len()
        invariant
            1 <= i <= parts@.len(),
            all == views(parts@),
            out@ == joined(all.take(i as int), separator@),
        decreases parts@.len() - i,
    {
        out.append(separator);
        out.append(parts[i].as_str());
        assert(all.take(i + 1).drop_last() =~= all.take(i as int));
        assert(all.take(i + 1).last() == parts@[i as int]@);
        i += 1;
    }
    assert(all.take(parts@.len() as int) =~= all);
    out
}

/// The pieces of a text between the separators, empty ones too.
pub open spec fn pieces(s: Seq<char>, separator: char) -> Seq<Seq<char>>
    decreases s.len(),
{
    if s.len() == 0 {
        seq![Seq::<char>::empty()]
    } else {
        let before = pieces(s.drop_last(), separator);
        if s.last() == separator {
            before.push(Seq::empty())
        } else {
            before.drop_last().push(before.last().push(s.last()))
        }
    }
}

/// The characters of the pieces are characters of the text.
pub proof fn lemma_piece_chars(s: Seq<char>, separator: char, k: int, i: int)
    requires
        0 <= k < pieces(s, separator).len(),
        0 <= i < pieces(s, separator)[k].len(),
    ensures
        s.contains(pieces(s, separator)[k][i]),
    decreases s.len(),
{
    if s.len() > 0 {
        let shorter = s.drop_last();
        let before = pieces(shorter, separator);
        let c = pieces(s, separator)[k][i];
        lemma_piece_count(shorter, separator);
        if s.last() != separator && k == before.len() - 1 && i == before.last().len() {
            assert(s[s.len() - 1] == c);
        } else {
            assert(k < before.len() && i < before[k].len() && c == before[k][i]);
            lemma_piece_chars(shorter, separator, k, i);
            let j = shorter.index_of(c);
            assert(s[j] == c);
        }
    }
}

proof fn lemma_piece_count(s: Seq<char>, separator: char)
    ensures
        pieces(s, separator).len() > 0,
    decreases s.len(),
{
    if s.len() > 0 {
        lemma_piece_count(s.drop_last(), separator);
    }
}

/// A text without the separator is one piece.
pub proof fn lemma_one_piece(s: Seq<char>, separator: char)
    requires
        forall|i: int| 0 <= i < s.len() ==> s[i] != separator,
    ensures
        pieces(s, separator) == seq![s],
    decreases s.len(),
{
    if s.len() > 0 {
        lemma_one_piece(s.drop_last(), separator);
        assert(pieces(s, separator) =~= seq![s.drop_last().push(s.last())]);
        assert(s.drop_last().push(s.last()) =~= s);
    } else {
        assert(seq![Seq::<char>::empty()] =~= seq![s]) by {
            assert(s =~= Seq::empty());
        }
    }
}

pub fn split_text(s: &str, separator: char) -> (out: Vec<String>)
    ensures
        views(out@) == pieces(s@, separator),
{
    broadcast use lemma_views_push;

    let chars = chars_of(s);
    let mut out: Vec<String> = Vec::new();
    let mut current = String::new();
    let mut i: usize = 0;
    proof {
        assert(s@.take(0) =~= Seq::<char>::empty());
        assert(pieces(s@.take(0), separator) =~= views(out@).push(current@));
    }
    while i < chars.len()
        invariant
            i <= chars@.len(),
            chars@ == s@,
            pieces(s@.take(i as int), separator) == views(out@).push(current@),
        decreases chars@.len() - i,
    {
        let ghost seen = s@.take(i as int);
        assert(s@.take(i + 1).drop_last() =~= seen);
        assert(pieces(seen, separator).drop_last() =~= views(out@));
        if chars[i] == separator {
            out.push(current);
            current = String::new();
            assert(pieces(s@.take(i + 1), separator) =~= views(out@).push(current@));
        } else {
            current.push(chars[i]);
            assert(pieces(s@.take(i + 1), separator) =~= views(out@).push(current@));
        }
        i += 1;
    }
    assert(s@.take(s@.len() as int) =~= s@);
    out.push(current);
    out
}

/// The texts that are not empty.
pub open spec fn nonempty(parts: Seq<Seq<char>>) -> Seq<Seq<char>>
    decreases parts.len(),
{
    if parts.len() == 0 {
        Seq::empty()
    } else if parts.last().len() > 0 {
        nonempty(parts.drop_last()).push(parts.last())
    } else {
        nonempty(parts.drop_last())
    }
}

pub fn nonempty_texts(parts: &Vec<String>) -> (out: Vec<String>)
    ensures
        views(out@) == nonempty(views(parts@)),
{
    broadcast use lemma_views_push;

    let ghost all = views(parts@);
    let mut out: Vec<String> = Vec::new();
    let mut i: usize = 0;
    assert(views(out@) =~= nonempty(all.take(0)));
    while i < parts.len()
        invariant
            i <= parts@.len(),
            all == views(parts@),
            views(out@) == nonempty(all.take(i as int)),
        decreases parts@.len() - i,
    {
        assert(all.take(i + 1).drop_last() =~= all.take(i as int));
        assert(all.take(i + 1).last() == parts@[i as int]@);
        if !parts[i].as_str().is_empty() {
            out.push(parts[i].clone());
        }
        i += 1;
    }
    assert(all.take(all.len() as int) =~= all);
    out
}

/// Nothing but decimal digits.
pub open spec fn all_digits(s: Seq<char>) -> bool {
    forall|i: int| 0 <= i < s.len() ==> '0' <= #[trigger] s[i] <= '9'
}

/// The number that decimal digits write.
pub open spec fn number_of(s: Seq<char>) -> nat
    decreases s.len(),
{
    if s.len() == 0 {
        0
    } else {
        10 * number_of(s.drop_last()) + ((s.last() as int - '0' as int) as nat)
    }
}

/// The unsigned number a text writes, with or without a plus sign, where it is at most `limit`.
pub open spec fn unsigned(s: Seq<char>, limit: nat) -> Option<nat> {
    let digits = if s.len() > 0 && s[0] == '+' {
        s.skip(1)
    } else {
        s
    };
    if digits.len() > 0 && all_digits(digits) && number_of(digits) <= limit {
        Some(number_of(digits))
    } else {
        None
    }
}

proof fn lemma_number_grows(s: Seq<char>, i: int)
    requires
        0 <= i <= s.len(),
    ensures
        number_of(s.take(i)) <= number_of(s),
    decreases s.len() - i,
{
    if i == s.len() {
        assert(s.take(i) =~= s);
    } else {
        assert(s.drop_last().take(i) =~= s.take(i));
        lemma_number_grows(s.drop_last(), i);
    }
}

/// The unsigned number a text writes, where it is at most `limit`.
pub fn parse_unsigned(text: &str, limit: u64) -> (r: Option<u64>)
    ensures
        match r {
            Some(n) => unsigned(text@, limit as nat) == Some(n as nat),
            None => unsigned(text@, limit as nat) is None,
        },
{
    let chars = chars_of(text);
    let start: usize = if chars.len() > 0 && chars[0] == '+' {
        1
    } else {
        0
    };
    let ghost digits = text@.skip(start as int);
    assert(text@.skip(0) =~= text@);
    if chars.len() == start {
        return None;
    }
    let mut value: u128 = 0;
    let mut i: usize = start;
    assert(digits.take(0) =~= Seq::empty());
    while i < chars.len()
        invariant
            start <= i <= chars@.len(),
            chars@ == text@,
            digits == text@.skip(start as int),
            digits.len() == chars@.len() - start,
            value == number_of(digits.take(i - start)),
            value <= limit,
            forall|k: int| 0 <= k < i - start ==> '0' <= #[trigger] digits[k] <= '9',
            digits == if text@.len() > 0 && text@[0] == '+' {
                text@.skip(1)
            } else {
                text@
            },
        decreases chars@.len() - i,
    {
        let c = chars[i];
        assert(digits[i - start] == c);
        if !('0' <= c && c <= '9') {
            return None;
        }
        assert(digits.take(i - start + 1).drop_last() =~= digits.take(i - start));
        value = 10 * value + ((c as u8) - 48) as u128;
        i += 1;
        if value > limit as u128 {
            proof {
                lemma_number_grows(digits, i - start);
            }
            return None;
        }
    }
    assert(digits.take(digits.len() as int) =~= digits);
    Some(value as u64)
}

/// The decimal digits of a number read as that number, and none of them is a zero in front.
pub proof fn a_number_reads_back(n: nat, width: nat)
    ensures
        all_digits(decimal(n)),
        number_of(decimal(n)) == n,
        decimal(n).len() > 1 ==> decimal(n)[0] != '0',
        number_of(zero_padded(n, width)) == n,
        zero_padded(n, width).len() >= width,
        decimal(n).len() <= width ==> zero_padded(n, width).len() == width,
    decreases n,
{
    lemma_decimal_digits(n);
    lemma_decimal_nonempty(n);
    lemma_decimal_value(n);
    let digits = decimal(n);
    if digits.len() < width {
        let zeros = repeated('0', (width - digits.len()) as nat);
        lemma_zeros_in_front(zeros.len(), digits);
        assert(zeros =~= repeated('0', zeros.len()));
    }
}

proof fn lemma_decimal_value(n: nat)
    ensures
        number_of(decimal(n)) == n,
        decimal(n).len() > 1 ==> decimal(n)[0] != '0',
        decimal(n).len() > 0,
        n > 0 ==> decimal(n)[0] != '0',
    decreases n,
{
    if n < 10 {
        let one = seq![digit(n as int)];
        assert(one.drop_last() =~= Seq::empty());
        assert(number_of(one.drop_last()) == 0);
        assert(one.last() as int == '0' as int + n);
    } else {
        lemma_decimal_value(n / 10);
        let front = decimal(n / 10);
        let all = front.push(digit((n % 10) as int));
        assert(all.drop_last() =~= front);
        assert(all.last() as int == '0' as int + n % 10);
        assert(n == 10 * (n / 10) + n % 10);
    }
}

proof fn lemma_zeros_in_front(k: nat, digits: Seq<char>)
    ensures
        number_of(repeated('0', k) + digits) == number_of(digits),
    decreases k + digits.len(),
{
    let all = repeated('0', k) + digits;
    if digits.len() > 0 {
        lemma_zeros_in_front(k, digits.drop_last());
        assert(all.drop_last() =~= repeated('0', k) + digits.drop_last());
        assert(all.last() == digits.last());
    } else if k > 0 {
        lemma_zeros_in_front((k - 1) as nat, digits);
        assert(all.drop_last() =~= repeated('0', (k - 1) as nat) + digits);
        assert(all.last() == '0');
    } else {
        assert(all =~= digits);
    }
}

/// Texts are ordered by the first character in which they differ, and a text stands before its
/// continuations.
pub proof fn texts_are_ordered_by_their_first_difference(a: Seq<char>, b: Seq<char>, k: int)
    requires
        0 <= k <= a.len(),
        k <= b.len(),
        forall|i: int| 0 <= i < k ==> a[i] == b[i],
    ensures
        k < a.len() && k < b.len() && a[k] != b[k] ==> text_le(a, b) == (a[k] < b[k]),
        k == a.len() ==> text_le(a, b),
        k == b.len() && k < a.len() ==> !text_le(a, b),
    decreases k,
{
    if k > 0 {
        let x = a.skip(1);
        let y = b.skip(1);
        assert forall|i: int| 0 <= i < k - 1 implies x[i] == y[i] by {
            assert(x[i] == a[i + 1] && y[i] == b[i + 1]);
        }
        texts_are_ordered_by_their_first_difference(x, y, k - 1);
        assert(a[0] == b[0]);
        if k < a.len() && k < b.len() {
            assert(x[k - 1] == a[k] && y[k - 1] == b[k]);
        }
    }
}

/// Splitting a text loses nothing: its pieces hold no separator, and joined with it they are the
/// text again.
pub proof fn pieces_join_to_the_text(s: Seq<char>, separator: char)
    ensures
        joined(pieces(s, separator), seq![separator]) == s,
        forall|k: int|
            0 <= k < pieces(s, separator).len() ==> !(#[trigger] pieces(s, separator)[k]).contains(
                separator,
            ),
        pieces(s, separator).len() > 0,
    decreases s.len(),
{
    let dot = seq![separator];
    if s.len() == 0 {
        assert(pieces(s, separator)[0] =~= s);
    } else {
        let fewer = s.drop_last();
        pieces_join_to_the_text(fewer, separator);
        let before = pieces(fewer, separator);
        let now = pieces(s, separator);
        if s.last() == separator {
            assert(now.drop_last() =~= before);
            assert(joined(now, dot) =~= s);
        } else {
            let last = before.last().push(s.last());
            if before.len() == 1 {
                assert(now =~= seq![last]);
                assert(s =~= fewer.push(s.last()));
            } else {
                assert(now.drop_last() =~= before.drop_last());
                assert(now.last() == last);
                let front = joined(before.drop_last(), dot);
                assert(joined(before, dot) == front + dot + before.last());
                assert(joined(now, dot) == front + dot + last);
                assert(front + dot + last =~= (front + dot + before.last()).push(s.last()));
                assert(s =~= fewer.push(s.last()));
            }
        }
        assert forall|k: int| 0 <= k < now.len() implies !(#[trigger] now[k]).contains(
            separator,
        ) by {
            if k < now.len() - 1 {
                assert(now[k] == before[k]);
            } else if s.last() != separator {
                let piece = before.last();
                assert(before[before.len() - 1] == piece);
                if piece.push(s.last()).contains(separator) {
                    let i = choose|i: int|
                        0 <= i < piece.push(s.last()).len() && piece.push(s.last())[i] == separator;
                    assert(piece[i] == separator);
                }
            }
        }
    }
}

/// Trimming takes the white space around a text and nothing else of it.
pub proof fn trimming_takes_the_space_around(s: Seq<char>)
    ensures
        trimmed(s).len() > 0 ==> !is_space(trimmed(s)[0]) && !is_space(trimmed(s).last()),
        exists|front: Seq<char>, back: Seq<char>|
            s == #[trigger] around(front, trimmed(s), back) && (forall|i: int|
                0 <= i < front.len() ==> is_space(#[trigger] front[i])) && (forall|i: int|
                0 <= i < back.len() ==> is_space(#[trigger] back[i])),
        s.len() > 0 && !is_space(s[0]) && !is_space(s.last()) ==> trimmed(s) == s,
        s.len() == 0 ==> trimmed(s) == s,
{
    let n = leading_space(s);
    lemma_leading_space(s);
    let front = s.take(n as int);
    let rest = s.skip(n as int);
    let m = trailing_space(rest);
    lemma_trailing_space(rest);
    let back = rest.skip(rest.len() - m);
    assert(s =~= around(front, trimmed(s), back));
    assert forall|i: int| 0 <= i < front.len() implies is_space(#[trigger] front[i]) by {
        assert(front[i] == s[i]);
    }
    assert forall|i: int| 0 <= i < back.len() implies is_space(#[trigger] back[i]) by {
        assert(back[i] == rest[rest.len() - m + i]);
    }
    if trimmed(s).len() > 0 {
        assert(trimmed(s)[0] == s[n as int]);
        assert(trimmed(s).last() == rest[rest.len() - m - 1]);
    }
    if s.len() > 0 && !is_space(s[0]) && !is_space(s.last()) {
        assert(rest =~= s);
        assert(trimmed(s) =~= s);
    }
    if s.len() == 0 {
        assert(trimmed(s) =~= s);
    }
}

/// A text between two others.
pub open spec fn around(front: Seq<char>, s: Seq<char>, back: Seq<char>) -> Seq<char> {
    front + s + back
}

proof fn lemma_leading_space(s: Seq<char>)
    ensures
        leading_space(s) <= s.len(),
        forall|i: int| 0 <= i < leading_space(s) ==> is_space(#[trigger] s[i]),
        leading_space(s) < s.len() ==> !is_space(s[leading_space(s) as int]),
    decreases s.len(),
{
    if s.len() > 0 && is_space(s[0]) {
        let rest = s.skip(1);
        lemma_leading_space(rest);
        assert forall|i: int| 0 <= i < leading_space(s) implies is_space(#[trigger] s[i]) by {
            if i > 0 {
                assert(s[i] == rest[i - 1]);
            }
        }
    }
}

proof fn lemma_trailing_space(s: Seq<char>)
    ensures
        trailing_space(s) <= s.len(),
        forall|i: int| s.len() - trailing_space(s) <= i < s.len() ==> is_space(#[trigger] s[i]),
        trailing_space(s) < s.len() ==> !is_space(s[s.len() - trailing_space(s) - 1]),
    decreases s.len(),
{
    if s.len() > 0 && is_space(s.last()) {
        let rest = s.drop_last();
        lemma_trailing_space(rest);
        assert forall|i: int| s.len() - trailing_space(s) <= i < s.len() implies is_space(
            #[trigger] s[i],
        ) by {
            if i < rest.len() {
                assert(s[i] == rest[i]);
            }
        }
    }
}

/// The empty texts among some are left out, and nothing else.
pub proof fn only_empty_texts_are_left_out(parts: Seq<Seq<char>>)
    ensures
        nonempty(parts) == parts.filter(|part: Seq<char>| part.len() > 0),
    decreases parts.len(),
{
    reveal(Seq::filter);
    if parts.len() > 0 {
        only_empty_texts_are_left_out(parts.drop_last());
    } else {
        assert(nonempty(parts) =~= parts);
    }
}

/// Joined texts stand one after the other with the separator between two of them.
pub proof fn joined_texts_stand_in_order(
    a: Seq<Seq<char>>,
    b: Seq<Seq<char>>,
    separator: Seq<char>,
)
    requires
        a.len() > 0,
        b.len() > 0,
    ensures
        joined(a + b, separator) == joined(a, separator) + separator + joined(b, separator),
        joined(seq![a[0]], separator) == a[0],
        joined(Seq::empty(), separator) == Seq::<char>::empty(),
    decreases b.len(),
{
    assert((a + b).drop_last() =~= a + b.drop_last());
    assert((a + b).last() == b.last());
    if b.len() == 1 {
        assert(a + b.drop_last() =~= a);
        assert(joined(b, separator) == b[0]);
    } else {
        joined_texts_stand_in_order(a, b.drop_last(), separator);
        assert(joined(a + b, separator) =~= joined(a, separator) + separator + joined(b, separator));
    }
}

/// Padding adds spaces alone, and just as many as the width takes.
pub proof fn padding_fills_the_width(s: Seq<char>, width: nat)
    ensures
        s.len() >= width ==> padded_left(s, width) == s && padded_right(s, width) == s,
        s.len() <= width ==> padded_left(s, width).len() == width && padded_right(s, width).len()
            == width,
        has_suffix(padded_left(s, width), s),
        has_prefix(padded_right(s, width), s),
        forall|i: int|
            0 <= i < padded_left(s, width).len() - s.len() ==> #[trigger] padded_left(s, width)[i]
                == ' ',
        forall|i: int|
            s.len() <= i < padded_right(s, width).len() ==> #[trigger] padded_right(s, width)[i]
                == ' ',
{
    let left = padded_left(s, width);
    assert(left.skip(left.len() - s.len()) =~= s);
    assert(padded_right(s, width).take(s.len() as int) =~= s);
}

/// The lowest hexadecimal digit is the last, and the others are those of a sixteenth.
pub proof fn hexadecimal_digits_stand_in_order(n: nat, d: nat, width: nat)
    requires
        d < 16,
    ensures
        hex(n, 0).len() == 0,
        hex(16 * n + d, width + 1) == hex(n, width) + seq!["0123456789abcdef"@[d as int]],
{
    reveal_strlit("0123456789abcdef");
    assert((16 * n + d) / 16 == n && (16 * n + d) % 16 == d);
    assert(hex_digit(d as int) == "0123456789abcdef"@[d as int]);
    assert(hex(16 * n + d, width + 1) =~= hex(n, width) + seq![hex_digit(d as int)]);
}

/// A separator cuts a text in two, each of which is cut by itself; a text without a separator is
/// one piece.
pub proof fn a_separator_cuts_a_text_in_two(a: Seq<char>, separator: char, b: Seq<char>)
    ensures
        pieces(a + seq![separator] + b, separator) == pieces(a, separator) + pieces(b, separator),
        !a.contains(separator) ==> pieces(a, separator) == seq![a],
    decreases a.len() + b.len(),
{
    let whole = a + seq![separator] + b;
    if b.len() == 0 {
        assert(whole.drop_last() =~= a);
        assert(pieces(b, separator) =~= seq![Seq::<char>::empty()]);
        assert(pieces(whole, separator) =~= pieces(a, separator) + pieces(b, separator));
    } else {
        a_separator_cuts_a_text_in_two(a, separator, b.drop_last());
        pieces_join_to_the_text(b.drop_last(), separator);
        assert(whole.drop_last() =~= a + seq![separator] + b.drop_last());
        assert(pieces(whole, separator) =~= pieces(a, separator) + pieces(b, separator));
    }
    if !a.contains(separator) {
        lemma_one_piece(a, separator);
    }
}

pub broadcast proof fn lemma_part_before(a: Seq<char>, b: Seq<char>, part: Seq<char>)
    requires
        has_part(a, part),
    ensures
        #[trigger] has_part(a + b, part),
{
    lemma_part_of_sum(a, b, part);
}

pub broadcast proof fn lemma_part_behind(a: Seq<char>, b: Seq<char>, part: Seq<char>)
    requires
        has_part(b, part),
    ensures
        #[trigger] has_part(a + b, part),
{
    lemma_part_of_sum(a, b, part);
}

pub broadcast proof fn lemma_part_whole(s: Seq<char>)
    ensures
        #[trigger] has_part(s, s),
{
    lemma_part_of_itself(s);
}

/// What stands in a text, for a text that is put together of parts.
pub broadcast group group_parts_of_texts {
    lemma_part_before,
    lemma_part_behind,
    lemma_part_whole,
}

/// A joined text holds each of its parts.
pub proof fn lemma_part_of_joined(parts: Seq<Seq<char>>, separator: Seq<char>, i: int)
    requires
        0 <= i < parts.len(),
    ensures
        has_part(joined(parts, separator), parts[i]),
    decreases parts.len(),
{
    if parts.len() == 1 {
        lemma_part_of_itself(parts[0]);
    } else {
        let before = joined(parts.drop_last(), separator) + separator;
        if i < parts.len() - 1 {
            lemma_part_of_joined(parts.drop_last(), separator, i);
            assert(parts.drop_last()[i] == parts[i]);
            lemma_part_of_sum(joined(parts.drop_last(), separator), separator, parts[i]);
        } else {
            lemma_part_of_itself(parts[i]);
        }
        lemma_part_of_sum(before, parts.last(), parts[i]);
    }
}

} // verus!
