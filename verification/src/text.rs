//! Text as sequences of characters: comparison, trimming, splitting,
//! decimal numerals, and the bytes a text encodes to.

use vstd::prelude::*;
use vstd::slice::slice_subrange;
use vstd::string::StringExecFns;
use vstd::utf8::{decode_utf8, encode_utf8, valid_utf8};

verus! {

/// The characters of Unicode's `White_Space` property.
pub open spec fn is_white(c: char) -> bool {
    let u = c as u32;
    ||| 9 <= u <= 13
    ||| u == 0x20
    ||| u == 0x85
    ||| u == 0xA0
    ||| u == 0x1680
    ||| 0x2000 <= u <= 0x200A
    ||| u == 0x2028
    ||| u == 0x2029
    ||| u == 0x202F
    ||| u == 0x205F
    ||| u == 0x3000
}

/// `s` without its leading white space.
pub open spec fn trim_front(s: Seq<char>) -> Seq<char>
    decreases s.len(),
{
    if s.len() > 0 && is_white(s[0]) {
        trim_front(s.skip(1))
    } else {
        s
    }
}

/// `s` without its trailing white space.
pub open spec fn trim_back(s: Seq<char>) -> Seq<char>
    decreases s.len(),
{
    if s.len() > 0 && is_white(s.last()) {
        trim_back(s.drop_last())
    } else {
        s
    }
}

/// `s` without leading and trailing white space.
pub open spec fn trimmed(s: Seq<char>) -> Seq<char> {
    trim_back(trim_front(s))
}

/// The lower-case letter of an ASCII capital; any other character itself.
pub open spec fn lower_char(c: char) -> char {
    if 'A' <= c <= 'Z' {
        ((c as u32) + 32) as char
    } else {
        c
    }
}

/// `s` with its ASCII capitals in lower case.
pub open spec fn lowered(s: Seq<char>) -> Seq<char> {
    s.map_values(|c: char| lower_char(c))
}

/// The pieces of `s` between the occurrences of `sep`: always one more than
/// there are occurrences.
pub open spec fn pieces(s: Seq<char>, sep: char) -> Seq<Seq<char>>
    decreases s.len(),
{
    if s.len() == 0 {
        seq![Seq::empty()]
    } else {
        let front = pieces(s.drop_last(), sep);
        if s.last() == sep {
            front.push(Seq::empty())
        } else {
            front.update(front.len() - 1, front.last().push(s.last()))
        }
    }
}

/// The parts one after the other, with `sep` between neighbours.
pub open spec fn joined(parts: Seq<Seq<char>>, sep: Seq<char>) -> Seq<char>
    decreases parts.len(),
{
    if parts.len() == 0 {
        Seq::empty()
    } else if parts.len() == 1 {
        parts[0]
    } else {
        joined(parts.drop_last(), sep) + sep + parts.last()
    }
}

/// Whether `s` begins with `prefix`.
pub open spec fn begins(s: Seq<char>, prefix: Seq<char>) -> bool {
    prefix.len() <= s.len() && s.take(prefix.len() as int) == prefix
}

/// A relative path below a directory, as Unix writes it. An absolute path
/// stands alone.
pub open spec fn path_joined(dir: Seq<char>, path: Seq<char>) -> Seq<char> {
    if path.len() > 0 && path[0] == '/' {
        path
    } else if dir.len() == 0 || dir.last() == '/' {
        dir + path
    } else {
        dir.push('/') + path
    }
}

/// Whether `part` occurs in `s` at position `i`.
pub open spec fn occurs_at(s: Seq<char>, part: Seq<char>, i: int) -> bool {
    0 <= i && i + part.len() <= s.len() && s.subrange(i, i + part.len()) == part
}

/// Whether `part` occurs in `s`.
pub open spec fn occurs(s: Seq<char>, part: Seq<char>) -> bool {
    exists|i: int| occurs_at(s, part, i)
}

/// Whether `s` ends with `suffix`.
pub open spec fn ends(s: Seq<char>, suffix: Seq<char>) -> bool {
    suffix.len() <= s.len() && s.skip(s.len() - suffix.len()) == suffix
}

pub open spec fn is_digit(c: char) -> bool {
    '0' <= c <= '9'
}

/// The number that decimal digits stand for.
pub open spec fn digits_value(s: Seq<char>) -> nat
    decreases s.len(),
{
    if s.len() == 0 {
        0
    } else {
        digits_value(s.drop_last()) * 10 + (s.last() as u32 - '0' as u32) as nat
    }
}

/// The digits of a numeral: what follows an optional leading `+`.
pub open spec fn numeral_digits(s: Seq<char>) -> Seq<char> {
    if s.len() > 0 && s[0] == '+' {
        s.skip(1)
    } else {
        s
    }
}

/// Whether `s` is an unsigned numeral: at least one digit and nothing but
/// digits, after an optional `+`.
pub open spec fn is_numeral(s: Seq<char>) -> bool {
    &&& numeral_digits(s).len() > 0
    &&& forall|i: int| 0 <= i < numeral_digits(s).len() ==> is_digit(#[trigger] numeral_digits(s)[i])
}

/// The value of `s` read as an unsigned numeral no larger than `max`.
pub open spec fn numeral(s: Seq<char>, max: nat) -> Option<nat> {
    if is_numeral(s) && digits_value(numeral_digits(s)) <= max {
        Some(digits_value(numeral_digits(s)))
    } else {
        None
    }
}

pub open spec fn digit_char(d: nat) -> char {
    ('0' as u32 + d) as char
}

/// The decimal digits of `n`, without leading zeros.
pub open spec fn decimal(n: nat) -> Seq<char>
    decreases n,
{
    if n < 10 {
        seq![digit_char(n)]
    } else {
        decimal(n / 10).push(digit_char(n % 10))
    }
}

/// Appends one character to a `String` (`String::push`).
pub assume_specification[ String::push ](s: &mut String, c: char)
    ensures
        final(s)@ == old(s)@.push(c),
;

/// A text and its bytes determine each other.
pub proof fn lemma_bytes_injective(a: Seq<char>, b: Seq<char>)
    ensures
        encode_utf8(a) == encode_utf8(b) <==> a == b,
{
    vstd::utf8::encode_utf8_decode_utf8(a);
    vstd::utf8::encode_utf8_decode_utf8(b);
}

/// Whether two byte strings are equal.
pub fn same_bytes(a: &[u8], b: &[u8]) -> (r: bool)
    ensures
        r == (a@ == b@),
{
    if a.len() != b.len() {
        return false;
    }
    let mut i: usize = 0;
    while i < a.len()
        invariant
            i <= a.len(),
            a.len() == b.len(),
            a@.take(i as int) == b@.take(i as int),
        decreases a.len() - i,
    {
        if a[i] != b[i] {
            assert(a@[i as int] != b@[i as int]);
            return false;
        }
        assert(a@.take(i + 1) =~= a@.take(i as int).push(a@[i as int]));
        assert(b@.take(i + 1) =~= b@.take(i as int).push(b@[i as int]));
        i = i + 1;
    }
    assert(a@.take(i as int) =~= a@);
    assert(b@.take(i as int) =~= b@);
    true
}

/// Whether two texts are equal.
pub fn same(a: &str, b: &str) -> (r: bool)
    ensures
        r == (a@ == b@),
{
    proof {
        lemma_bytes_injective(a@, b@);
    }
    same_bytes(a.as_bytes(), b.as_bytes())
}

/// Whether a text has no characters.
pub fn is_blank(s: &String) -> (r: bool)
    ensures
        r == (s@.len() == 0),
{
    let bytes = s.as_str().as_bytes();
    proof {
        lemma_bytes_injective(s@, Seq::empty());
        assert(encode_utf8(Seq::<char>::empty()) =~= Seq::<u8>::empty());
        if bytes@.len() == 0 {
            assert(bytes@ =~= Seq::<u8>::empty());
        }
        if s@.len() == 0 {
            assert(s@ =~= Seq::<char>::empty());
        }
    }
    bytes.len() == 0
}

/// Three texts one after the other.
pub fn concat3(a: &str, b: &str, c: &str) -> (s: String)
    ensures
        s@ == a@ + b@ + c@,
{
    let mut s = a.to_owned();
    s.append(b);
    s.append(c);
    s
}

/// The characters of a text.
pub fn to_chars(s: &str) -> (out: Vec<char>)
    ensures
        out@ == s@,
{
    let mut out: Vec<char> = Vec::new();
    broadcast use vstd::string::axiom_spec_iter;

    for c in it: s.chars()
        invariant
            it.seq() == s@,
            out@ == s@.take(it.index() as int),
    {
        out.push(c);
        assert(s@.take(it.index() + 1) =~= s@.take(it.index() as int).push(c));
    }
    assert(s@.take(s@.len() as int) =~= s@);
    out
}

/// The text made of the given characters.
pub fn from_chars(chars: &[char]) -> (out: String)
    ensures
        out@ == chars@,
{
    let mut out = String::new();
    let mut i: usize = 0;
    while i < chars.len()
        invariant
            i <= chars.len(),
            out@ == chars@.take(i as int),
        decreases chars.len() - i,
    {
        out.push(chars[i]);
        assert(chars@.take(i + 1) =~= chars@.take(i as int).push(chars@[i as int]));
        i = i + 1;
    }
    assert(chars@.take(i as int) =~= chars@);
    out
}

/// A path below a directory.
pub fn path_join(dir: &str, path: &str) -> (out: String)
    ensures
        out@ == path_joined(dir@, path@),
{
    let d = to_chars(dir);
    let p = to_chars(path);
    if p.len() > 0 && p[0] == '/' {
        return path.to_owned();
    }
    let mut out = dir.to_owned();
    if d.len() > 0 && d[d.len() - 1] != '/' {
        out.push('/');
    }
    out.append(path);
    out
}

/// The text that bytes encode (`String::from_utf8`): there is one exactly
/// where the bytes are valid UTF-8, and its bytes are the given ones.
#[verifier::external_body]
pub(crate) fn utf8_text(bytes: Vec<u8>) -> (out: Option<String>)
    ensures
        out is Some <==> valid_utf8(bytes@),
        out matches Some(s) ==> encode_utf8(s@) == bytes@,
{
    String::from_utf8(bytes).ok()
}

/// What `String::from_utf8_lossy` makes of bytes.
pub uninterp spec fn lossy_text(bytes: Seq<u8>) -> Seq<char>;

/// The text of bytes that may not be UTF-8 (`String::from_utf8_lossy`): the
/// text that they encode where they are valid, and some replacement where
/// they are not.
#[verifier::external_body]
pub(crate) fn lossy(bytes: &[u8]) -> (s: String)
    ensures
        s@ == lossy_text(bytes@),
        valid_utf8(bytes@) ==> s@ == decode_utf8(bytes@),
{
    String::from_utf8_lossy(bytes).into_owned()
}

/// Whether a character has Unicode's `White_Space` property.
pub fn white(c: char) -> (r: bool)
    ensures
        r == is_white(c),
{
    let u: u32 = c as u32;
    (9 <= u && u <= 13) || u == 0x20 || u == 0x85 || u == 0xA0 || u == 0x1680 || (0x2000 <= u && u
        <= 0x200A) || u == 0x2028 || u == 0x2029 || u == 0x202F || u == 0x205F || u == 0x3000
}

/// The text without leading and trailing white space.
pub fn trim(s: &str) -> (out: String)
    ensures
        out@ == trimmed(s@),
{
    let chars = to_chars(s);
    let mut start: usize = 0;
    assert(s@.skip(0) =~= s@);
    while start < chars.len() && white(chars[start])
        invariant
            start <= chars.len(),
            chars@ == s@,
            trim_front(s@) == trim_front(s@.skip(start as int)),
        decreases chars.len() - start,
    {
        assert(s@.skip(start as int).skip(1) =~= s@.skip(start + 1));
        start = start + 1;
    }
    assert(trim_front(s@.skip(start as int)) == s@.skip(start as int));
    let mut end: usize = chars.len();
    assert(s@.subrange(start as int, end as int) =~= s@.skip(start as int));
    while end > start && white(chars[end - 1])
        invariant
            start <= end <= chars.len(),
            chars@ == s@,
            trimmed(s@) == trim_back(s@.subrange(start as int, end as int)),
        decreases end,
    {
        assert(s@.subrange(start as int, end as int).drop_last() =~= s@.subrange(
            start as int,
            end - 1,
        ));
        end = end - 1;
    }
    let out = from_chars(slice_subrange(chars.as_slice(), start, end));
    out
}

/// The text with its ASCII capitals in lower case.
pub fn to_lower(s: &str) -> (out: String)
    ensures
        out@ == lowered(s@),
{
    let chars = to_chars(s);
    let mut out = String::new();
    let mut i: usize = 0;
    while i < chars.len()
        invariant
            i <= chars.len(),
            chars@ == s@,
            out@ == lowered(s@.take(i as int)),
        decreases chars.len() - i,
    {
        let c = chars[i];
        let l = if 'A' <= c && c <= 'Z' {
            ((c as u8) + 32) as char
        } else {
            c
        };
        out.push(l);
        assert(lowered(s@.take(i + 1)) =~= lowered(s@.take(i as int)).push(lower_char(c)));
        i = i + 1;
    }
    assert(s@.take(i as int) =~= s@);
    out
}

/// The views of a list of texts.
pub open spec fn views(v: Seq<String>) -> Seq<Seq<char>> {
    v.map_values(|t: String| t@)
}

/// The pieces of a text between the occurrences of a character.
pub fn split(s: &str, sep: char) -> (out: Vec<String>)
    ensures
        views(out@) == pieces(s@, sep),
{
    let chars = to_chars(s);
    let mut out: Vec<String> = Vec::new();
    let mut current = String::new();
    let mut i: usize = 0;
    assert(s@.take(0) =~= Seq::<char>::empty());
    assert(views(out@).push(current@) =~= seq![Seq::<char>::empty()]);
    while i < chars.len()
        invariant
            i <= chars.len(),
            chars@ == s@,
            views(out@).push(current@) == pieces(s@.take(i as int), sep),
        decreases chars.len() - i,
    {
        let c = chars[i];
        assert(s@.take(i + 1).drop_last() =~= s@.take(i as int));
        let ghost before = views(out@).push(current@);
        if c == sep {
            let ghost done = current@;
            out.push(current);
            current = String::new();
            assert(views(out@) =~= before);
        } else {
            current.push(c);
            assert(views(out@).push(current@) =~= before.update(
                before.len() - 1,
                before.last().push(c),
            ));
        }
        i = i + 1;
    }
    assert(s@.take(i as int) =~= s@);
    let ghost whole = views(out@).push(current@);
    out.push(current);
    assert(views(out@) =~= whole);
    out
}

/// The parts one after the other, with `sep` between neighbours.
pub fn join(parts: &[String], sep: &str) -> (out: String)
    ensures
        out@ == joined(views(parts@), sep@),
{
    let mut out = String::new();
    let mut i: usize = 0;
    while i < parts.len()
        invariant
            i <= parts.len(),
            out@ == joined(views(parts@).take(i as int), sep@),
        decreases parts.len() - i,
    {
        assert(views(parts@).take(i + 1).drop_last() =~= views(parts@).take(i as int));
        if i > 0 {
            out.append(sep);
        }
        out.append(parts[i].as_str());
        proof {
            let next = views(parts@).take(i + 1);
            assert(next.last() == parts@[i as int]@);
            if i == 0 {
                assert(out@ =~= next[0]);
            }
        }
        i = i + 1;
    }
    assert(views(parts@).take(i as int) =~= views(parts@));
    out
}

/// What follows `prefix` in `s`, where `s` begins with it.
pub fn after_prefix(s: &str, prefix: &str) -> (out: Option<String>)
    ensures
        out is Some <==> begins(s@, prefix@),
        out matches Some(rest) ==> rest@ == s@.skip(prefix@.len() as int),
{
    let chars = to_chars(s);
    let head = to_chars(prefix);
    if head.len() > chars.len() {
        return None;
    }
    let mut i: usize = 0;
    while i < head.len()
        invariant
            i <= head.len() <= chars.len(),
            chars@ == s@,
            head@ == prefix@,
            forall|j: int| 0 <= j < i ==> chars@[j] == head@[j],
        decreases head.len() - i,
    {
        if chars[i] != head[i] {
            assert(s@.take(prefix@.len() as int)[i as int] != prefix@[i as int]);
            return None;
        }
        i = i + 1;
    }
    assert(s@.take(prefix@.len() as int) =~= prefix@);
    assert(s@.subrange(head.len() as int, chars.len() as int) =~= s@.skip(prefix@.len() as int));
    Some(from_chars(slice_subrange(chars.as_slice(), head.len(), chars.len())))
}

/// What stands before `suffix` in `s`, where `s` ends with it.
pub fn before_suffix(s: &str, suffix: &str) -> (out: Option<String>)
    ensures
        out is Some <==> ends(s@, suffix@),
        out matches Some(rest) ==> rest@ == s@.take(s@.len() - suffix@.len()),
{
    let chars = to_chars(s);
    let tail = to_chars(suffix);
    if tail.len() > chars.len() {
        return None;
    }
    let at: usize = chars.len() - tail.len();
    assert(s@.subrange(at as int, at + tail.len()) =~= s@.skip(at as int));
    if matches_at(chars.as_slice(), tail.as_slice(), at) {
        assert(s@.subrange(0, at as int) =~= s@.take(at as int));
        Some(from_chars(slice_subrange(chars.as_slice(), 0, at)))
    } else {
        None
    }
}

fn matches_at(chars: &[char], part: &[char], at: usize) -> (r: bool)
    requires
        at + part@.len() <= chars@.len(),
    ensures
        r == occurs_at(chars@, part@, at as int),
{
    let mut k: usize = 0;
    while k < part.len()
        invariant
            k <= part.len(),
            at + part.len() <= chars.len(),
            forall|j: int| 0 <= j < k ==> chars@[at + j] == part@[j],
        decreases part.len() - k,
    {
        if chars[at + k] != part[k] {
            assert(chars@.subrange(at as int, at + part@.len())[k as int] != part@[k as int]);
            return false;
        }
        k = k + 1;
    }
    assert(chars@.subrange(at as int, at + part@.len()) =~= part@);
    true
}

/// Whether `part` occurs in `s`.
pub fn contains(s: &str, part: &str) -> (r: bool)
    ensures
        r == occurs(s@, part@),
{
    let chars = to_chars(s);
    let part_chars = to_chars(part);
    if part_chars.len() > chars.len() {
        return false;
    }
    let last: usize = chars.len() - part_chars.len();
    let mut i: usize = 0;
    loop
        invariant
            i <= last,
            last + part_chars.len() == chars.len(),
            chars@ == s@,
            part_chars@ == part@,
            forall|j: int| 0 <= j < i ==> !occurs_at(s@, part@, j),
        decreases last - i,
    {
        if matches_at(chars.as_slice(), part_chars.as_slice(), i) {
            return true;
        }
        if i == last {
            return false;
        }
        i = i + 1;
    }
}

/// Reads an unsigned numeral no larger than `max`.
pub fn parse_numeral(s: &str, max: u64) -> (out: Option<u64>)
    ensures
        out is Some <==> numeral(s@, max as nat) is Some,
        out matches Some(v) ==> numeral(s@, max as nat) == Some(v as nat),
{
    let chars = to_chars(s);
    let start: usize = if chars.len() > 0 && chars[0] == '+' {
        1
    } else {
        0
    };
    let ghost digits = numeral_digits(s@);
    assert(digits =~= s@.skip(start as int));
    if start == chars.len() {
        return None;
    }
    let mut value: u64 = 0;
    let mut i: usize = start;
    let mut fits = true;
    while i < chars.len()
        invariant
            start <= i <= chars.len(),
            chars@ == s@,
            digits == s@.skip(start as int),
            digits == numeral_digits(s@),
            forall|k: int| 0 <= k < i - start ==> is_digit(#[trigger] digits[k]),
            fits ==> value == digits_value(digits.take(i - start)) && value <= max,
            !fits ==> digits_value(digits.take(i - start)) > max,
        decreases chars.len() - i,
    {
        let c = chars[i];
        assert(c == digits[i - start]);
        if !('0' <= c && c <= '9') {
            assert(!is_digit(digits[i - start]));
            return None;
        }
        assert(digits.take(i - start + 1).drop_last() =~= digits.take(i - start));
        let d: u64 = (c as u32 - '0' as u32) as u64;
        if fits {
            if value <= (u64::MAX - d) / 10 {
                value = value * 10 + d;
                fits = value <= max;
            } else {
                fits = false;
            }
        }
        i = i + 1;
    }
    assert(digits.take(i - start) =~= digits);
    if fits {
        Some(value)
    } else {
        None
    }
}

/// The decimal digits of a number.
pub fn show(n: u128) -> (out: String)
    ensures
        out@ == decimal(n as nat),
    decreases n,
{
    let d = (('0' as u8) + ((n % 10) as u8)) as char;
    if n < 10 {
        let mut out = String::new();
        out.push(d);
        assert(out@ =~= decimal(n as nat));
        out
    } else {
        let mut out = show(n / 10);
        out.push(d);
        out
    }
}

/// The digits of a number read back as that number.
pub proof fn law_shown_number_reads_back(n: nat, max: nat)
    requires
        n <= max,
    ensures
        numeral(decimal(n), max) == Some(n),
{
    lemma_decimal(n);
    assert(numeral_digits(decimal(n)) == decimal(n));
}

proof fn lemma_decimal(n: nat)
    ensures
        decimal(n).len() > 0,
        forall|i: int| 0 <= i < decimal(n).len() ==> is_digit(#[trigger] decimal(n)[i]),
        digits_value(decimal(n)) == n,
    decreases n,
{
    if n < 10 {
        reveal_with_fuel(digits_value, 2);
        assert(decimal(n).drop_last() =~= Seq::<char>::empty());
    } else {
        lemma_decimal(n / 10);
        assert(decimal(n).drop_last() =~= decimal(n / 10));
    }
}

proof fn lemma_trim_back(s: Seq<char>)
    ensures
        trim_back(s).len() <= s.len(),
        trim_back(s) == s.take(trim_back(s).len() as int),
        trim_back(s).len() > 0 ==> !is_white(trim_back(s).last()),
    decreases s.len(),
{
    if s.len() > 0 && is_white(s.last()) {
        lemma_trim_back(s.drop_last());
        let n = trim_back(s.drop_last()).len() as int;
        assert(s.drop_last().take(n) =~= s.take(n));
    } else {
        assert(s.take(s.len() as int) =~= s);
    }
}

proof fn lemma_trim_front(s: Seq<char>)
    ensures
        trim_front(s).len() <= s.len(),
        trim_front(s) == s.skip(s.len() - trim_front(s).len()),
        trim_front(s).len() > 0 ==> !is_white(trim_front(s)[0]),
    decreases s.len(),
{
    if s.len() > 0 && is_white(s[0]) {
        lemma_trim_front(s.skip(1));
        let n = trim_front(s.skip(1)).len() as int;
        assert(s.skip(1).skip(s.len() - 1 - n) =~= s.skip(s.len() - n));
    } else {
        assert(s.skip(0) =~= s);
    }
}

/// Trimming a trimmed text changes nothing, and a trimmed text has only
/// characters of the text it came from.
pub proof fn lemma_trimmed(s: Seq<char>)
    ensures
        trimmed(trimmed(s)) == trimmed(s),
        forall|i: int| 0 <= i < trimmed(s).len() ==> s.contains(#[trigger] trimmed(s)[i]),
{
    let f = trim_front(s);
    let t = trimmed(s);
    lemma_trim_front(s);
    lemma_trim_back(f);
    if t.len() > 0 {
        assert(t[0] == f[0]);
        assert(trim_front(t) == t);
        assert(trim_back(t) == t);
    } else {
        assert(trim_front(t) == t);
        assert(trim_back(t) == t);
    }
    assert forall|i: int| 0 <= i < t.len() implies s.contains(#[trigger] t[i]) by {
        assert(t[i] == f[i]);
        assert(f[i] == s[s.len() - f.len() + i]);
    }
}

/// No piece holds the separator.
pub proof fn lemma_pieces_lack_separator(s: Seq<char>, sep: char)
    ensures
        pieces(s, sep).len() > 0,
        forall|i: int| 0 <= i < pieces(s, sep).len() ==> !(#[trigger] pieces(s, sep)[i]).contains(sep),
    decreases s.len(),
{
    if s.len() > 0 {
        lemma_pieces_lack_separator(s.drop_last(), sep);
        let front = pieces(s.drop_last(), sep);
        let all = pieces(s, sep);
        assert forall|i: int| 0 <= i < all.len() implies !(#[trigger] all[i]).contains(sep) by {
            if s.last() != sep && i == all.len() - 1 {
                assert(!front.last().contains(sep));
                if all[i].contains(sep) {
                    let k = all[i].index_of(sep);
                    assert(front.last()[k] == sep);
                }
            } else if i < front.len() {
                assert(all[i] == front[i]);
            }
        }
    }
}

proof fn lemma_pieces_extend(a: Seq<char>, b: Seq<char>, sep: char)
    requires
        !b.contains(sep),
    ensures
        pieces(a, sep).len() > 0,
        pieces(a + b, sep) == pieces(a, sep).update(
            pieces(a, sep).len() - 1,
            pieces(a, sep).last() + b,
        ),
    decreases b.len(),
{
    lemma_pieces_lack_separator(a, sep);
    let front = pieces(a, sep);
    if b.len() == 0 {
        assert(a + b =~= a);
        assert(front.last() + b =~= front.last());
        assert(front.update(front.len() - 1, front.last()) =~= front);
    } else {
        assert(!b.drop_last().contains(sep)) by {
            if b.drop_last().contains(sep) {
                let k = b.drop_last().index_of(sep);
                assert(b[k] == sep);
            }
        }
        lemma_pieces_extend(a, b.drop_last(), sep);
        assert((a + b).drop_last() =~= a + b.drop_last());
        assert((a + b).last() == b.last());
        assert(b.contains(b.last()));
        let last = front.last() + b.drop_last();
        assert(last.push(b.last()) =~= front.last() + b);
        assert(front.update(front.len() - 1, last).update(front.len() - 1, last.push(b.last()))
            =~= front.update(front.len() - 1, front.last() + b));
    }
}

/// Splitting joined parts gives the parts back, where none holds the
/// separator.
pub proof fn lemma_pieces_of_joined(parts: Seq<Seq<char>>, sep: char)
    requires
        parts.len() > 0,
        forall|i: int| 0 <= i < parts.len() ==> !(#[trigger] parts[i]).contains(sep),
    ensures
        pieces(joined(parts, seq![sep]), sep) == parts,
    decreases parts.len(),
{
    let e = Seq::<char>::empty();
    if parts.len() == 1 {
        lemma_pieces_extend(e, parts[0], sep);
        assert(e + parts[0] =~= parts[0]);
        assert(pieces(e, sep) =~= seq![e]);
        assert(seq![e].update(0, parts[0]) =~= parts);
    } else {
        let front = parts.drop_last();
        lemma_pieces_of_joined(front, sep);
        let j = joined(front, seq![sep]);
        let js = j + seq![sep];
        assert(js.drop_last() =~= j);
        assert(pieces(js, sep) == front.push(e));
        lemma_pieces_extend(js, parts.last(), sep);
        assert(e + parts.last() =~= parts.last());
        assert(front.push(e).update(front.len() as int, parts.last()) =~= parts);
    }
}

/// A list's texts are those of its strings, one by one.
pub proof fn law_views_are_the_texts(v: Seq<String>)
    ensures
        views(v).len() == v.len(),
        forall|i: int| 0 <= i < v.len() ==> #[trigger] views(v)[i] == v[i]@,
{
}

/// Trimming takes white space off both ends and nothing else.
pub proof fn law_trimming_takes_white_ends(s: Seq<char>)
    ensures
        exists|a: int, b: int|
            #![trigger s.subrange(a, b)]
            0 <= a <= b <= s.len() && trimmed(s) == s.subrange(a, b) && (forall|i: int|
                0 <= i < a || b <= i < s.len() ==> is_white(#[trigger] s[i])),
        trimmed(s).len() > 0 ==> !is_white(trimmed(s)[0]) && !is_white(trimmed(s).last()),
{
    let a = lemma_front_white(s);
    let front = trim_front(s);
    let n = lemma_back_white(front);
    assert(s.subrange(a, a + n) =~= front.take(n));
    assert forall|i: int| 0 <= i < a || a + n <= i < s.len() implies is_white(#[trigger] s[i]) by {
        if i >= a {
            assert(front[i - a] == s[i]);
        }
    }
}

proof fn lemma_front_white(s: Seq<char>) -> (a: int)
    ensures
        0 <= a <= s.len(),
        trim_front(s) == s.skip(a),
        forall|i: int| 0 <= i < a ==> is_white(#[trigger] s[i]),
        trim_front(s).len() > 0 ==> !is_white(trim_front(s)[0]),
    decreases s.len(),
{
    if s.len() > 0 && is_white(s[0]) {
        let rest = s.skip(1);
        let b = lemma_front_white(rest);
        assert(rest.skip(b) =~= s.skip(b + 1));
        assert forall|i: int| 0 <= i < b + 1 implies is_white(#[trigger] s[i]) by {
            if i > 0 {
                assert(rest[i - 1] == s[i]);
            }
        }
        b + 1
    } else {
        assert(s.skip(0) =~= s);
        0
    }
}

proof fn lemma_back_white(s: Seq<char>) -> (n: int)
    ensures
        0 <= n <= s.len(),
        trim_back(s) == s.take(n),
        forall|i: int| n <= i < s.len() ==> is_white(#[trigger] s[i]),
        trim_back(s).len() > 0 ==> !is_white(trim_back(s).last()),
        n > 0 ==> trim_back(s)[0] == s[0],
    decreases s.len(),
{
    if s.len() > 0 && is_white(s.last()) {
        let rest = s.drop_last();
        let n = lemma_back_white(rest);
        assert(rest.take(n) =~= s.take(n));
        assert forall|i: int| n <= i < s.len() implies is_white(#[trigger] s[i]) by {
            if i < rest.len() {
                assert(rest[i] == s[i]);
            }
        }
        n
    } else {
        assert(s.take(s.len() as int) =~= s);
        s.len() as int
    }
}

/// White space is what Unicode calls so.
pub proof fn law_white_space(c: char)
    ensures
        is_white(c) <==> (c == ' ' || '\u{9}' <= c <= '\u{d}' || c == '\u{85}' || c == '\u{a0}' || c
            == '\u{1680}' || '\u{2000}' <= c <= '\u{200a}' || c == '\u{2028}' || c == '\u{2029}' || c
            == '\u{202f}' || c == '\u{205f}' || c == '\u{3000}'),
{
}

/// The letters of the alphabet become small, and every other character stays.
pub proof fn law_lowering_keeps_other_characters(s: Seq<char>, i: int)
    requires
        0 <= i < s.len(),
    ensures
        lowered(s).len() == s.len(),
        'A' <= s[i] <= 'Z' ==> lowered(s)[i] as u32 == s[i] as u32 + 32,
        !('A' <= s[i] <= 'Z') ==> lowered(s)[i] == s[i],
{
}

/// The pieces between separators, put together again, are the text, and none
/// of them holds a separator.
pub proof fn law_pieces_join_back(s: Seq<char>, sep: char)
    ensures
        joined(pieces(s, sep), seq![sep]) == s,
        forall|i: int|
            0 <= i < pieces(s, sep).len() ==> !(#[trigger] pieces(s, sep)[i]).contains(sep),
        pieces(s, sep).len() > 0,
    decreases s.len(),
{
    lemma_pieces_lack_separator(s, sep);
    if s.len() > 0 {
        let front = pieces(s.drop_last(), sep);
        law_pieces_join_back(s.drop_last(), sep);
        let all = pieces(s, sep);
        if s.last() == sep {
            assert(all.drop_last() =~= front);
            assert(joined(all, seq![sep]) =~= joined(front, seq![sep]) + seq![sep]
                + Seq::<char>::empty());
            assert(joined(all, seq![sep]) =~= s);
        } else if front.len() == 1 {
            assert(joined(all, seq![sep]) =~= s);
        } else {
            assert(all.drop_last() =~= front.drop_last());
            assert(all.last() == front.last().push(s.last()));
            assert(joined(front, seq![sep]) == joined(front.drop_last(), seq![sep]) + seq![sep]
                + front.last());
            assert(joined(all, seq![sep]) =~= joined(front, seq![sep]).push(s.last()));
            assert(joined(all, seq![sep]) =~= s);
        }
    }
}

/// Texts are put together in order, with the separator between them.
pub proof fn law_joining_puts_the_separator_between(
    parts: Seq<Seq<char>>,
    last: Seq<char>,
    sep: Seq<char>,
)
    ensures
        joined(Seq::empty(), sep) == Seq::<char>::empty(),
        joined(seq![last], sep) == last,
        parts.len() > 0 ==> joined(parts.push(last), sep) == joined(parts, sep) + sep + last,
{
    if parts.len() > 0 {
        assert(parts.push(last).drop_last() =~= parts);
    }
}

/// A text begins with another where that one and something more make it, ends
/// with it where something and that one do, and holds it where something on
/// either side does.
pub proof fn law_parts_of_a_text(s: Seq<char>, part: Seq<char>)
    ensures
        begins(s, part) <==> exists|rest: Seq<char>| s == #[trigger] (part + rest),
        ends(s, part) <==> exists|rest: Seq<char>| s == #[trigger] (rest + part),
        occurs(s, part) <==> exists|a: Seq<char>, b: Seq<char>| s == #[trigger] (a + part + b),
{
    if begins(s, part) {
        assert(s =~= part + s.skip(part.len() as int));
    }
    if exists|rest: Seq<char>| s == #[trigger] (part + rest) {
        assert(s.take(part.len() as int) =~= part);
    }
    if ends(s, part) {
        assert(s =~= s.take(s.len() - part.len()) + part);
    }
    if exists|rest: Seq<char>| s == #[trigger] (rest + part) {
        assert(s.skip(s.len() - part.len()) =~= part);
    }
    if occurs(s, part) {
        let i = choose|i: int| occurs_at(s, part, i);
        let (a, b) = (s.take(i), s.skip(i + part.len()));
        assert(s =~= a + part + b);
    }
    if exists|a: Seq<char>, b: Seq<char>| s == #[trigger] (a + part + b) {
        let (a, b) = choose|a: Seq<char>, b: Seq<char>| s == #[trigger] (a + part + b);
        assert(s.subrange(a.len() as int, (a.len() + part.len()) as int) =~= part);
        assert(occurs_at(s, part, a.len() as int));
    }
}

/// An absolute path stands for itself; any other is put below the directory,
/// with one slash between them.
pub proof fn law_path_below_its_directory(dir: Seq<char>, path: Seq<char>)
    ensures
        begins(path, seq!['/']) ==> path_joined(dir, path) == path,
        !begins(path, seq!['/']) && dir.len() == 0 ==> path_joined(dir, path) == path,
        !begins(path, seq!['/']) && ends(dir, seq!['/']) ==> path_joined(dir, path) == dir + path,
        !begins(path, seq!['/']) && dir.len() > 0 && !ends(dir, seq!['/']) ==> path_joined(
            dir,
            path,
        ) == dir + seq!['/'] + path,
{
    if path.len() > 0 {
        assert(path.take(1) =~= seq!['/'] <==> path[0] == '/') by {
            if path.take(1) =~= seq!['/'] {
                assert(path.take(1)[0] == path[0]);
            }
        }
    }
    if dir.len() > 0 {
        let tail = dir.skip(dir.len() - 1);
        assert(tail =~= seq!['/'] <==> dir.last() == '/') by {
            if tail =~= seq!['/'] {
                assert(tail[0] == dir.last());
            }
        }
    }
    assert(dir + path =~= if dir.len() == 0 {
        path
    } else {
        dir + path
    });
    assert(dir.push('/') + path =~= dir + seq!['/'] + path);
}

/// Digits read as the number they write, the first the most; a plus in front
/// changes nothing, and what holds any other character is no number.
pub proof fn law_digits_write_a_number(s: Seq<char>, c: char, max: nat)
    ensures
        digits_value(Seq::empty()) == 0,
        '0' <= c <= '9' ==> digits_value(s.push(c)) == 10 * digits_value(s) + (c as u32 - '0' as u32),
        numeral(s, max) is Some ==> s.len() > 0 && forall|i: int|
            0 < i < s.len() ==> '0' <= #[trigger] s[i] <= '9',
        numeral(s, max) matches Some(n) ==> n <= max,
        s.len() > 0 && (forall|i: int| 0 <= i < s.len() ==> '0' <= #[trigger] s[i] <= '9') ==> {
            &&& numeral(s, max) == (if digits_value(s) <= max {
                Some(digits_value(s))
            } else {
                None
            })
            &&& numeral(seq!['+'] + s, max) == numeral(s, max)
        },
{
    assert(s.push(c).drop_last() =~= s);
    if numeral(s, max) is Some {
        let d = numeral_digits(s);
        assert(s.len() > 0);
        assert forall|i: int| 0 < i < s.len() implies '0' <= #[trigger] s[i] <= '9' by {
            if s[0] == '+' {
                assert(d[i - 1] == s[i]);
            } else {
                assert(d[i] == s[i]);
            }
        }
    }
    if s.len() > 0 && (forall|i: int| 0 <= i < s.len() ==> '0' <= #[trigger] s[i] <= '9') {
        assert(s[0] != '+');
        assert((seq!['+'] + s).skip(1) =~= s);
        assert forall|i: int| 0 <= i < s.len() implies is_digit(#[trigger] s[i]) by {}
    }
}

/// A number is written without zeros in front.
pub proof fn law_numbers_are_written_short(n: nat)
    ensures
        n < 10 ==> decimal(n).len() == 1,
        n >= 10 ==> decimal(n).len() == decimal(n / 10).len() + 1,
        n > 0 ==> '1' <= decimal(n)[0] <= '9',
        forall|i: int| 0 <= i < decimal(n).len() ==> '0' <= #[trigger] decimal(n)[i] <= '9',
    decreases n,
{
    if n >= 10 {
        law_numbers_are_written_short(n / 10);
    }
}

} // verus!
