//! Operations on text, stated over the sequence of characters that a string holds.
//!
//! Positions and lengths count characters, not bytes.
use vstd::prelude::*;
use vstd::string::*;

verus! {

/// `String::push` of std: it appends one character at the end.
pub assume_specification[ String::push ](s: &mut String, c: char)
    ensures
        final(s)@ == old(s)@.push(c),
;

/// What `str::to_lowercase` of std makes of a text: the Unicode lowercase mapping, which takes
/// the tables of the Unicode Character Database to write down.
pub uninterp spec fn lowercase(s: Seq<char>) -> Seq<char>;

/// Whether every character is one of ASCII.
pub open spec fn ascii(s: Seq<char>) -> bool {
    forall|i: int| 0 <= i < s.len() ==> #[trigger] s[i] <= '\u{7f}'
}

/// A character with a capital letter of ASCII made small.
pub open spec fn ascii_small(c: char) -> char {
    if 'A' <= c <= 'Z' {
        (c as u32 + 32) as char
    } else {
        c
    }
}

/// A text with the capital letters of ASCII made small.
pub open spec fn ascii_lower(s: Seq<char>) -> Seq<char> {
    Seq::new(s.len(), |i: int| ascii_small(s[i]))
}

/// The text in lower case, by `str::to_lowercase` of std. The contract claims that the result
/// depends on the text alone, and that of a text in ASCII the capital letters are made small and
/// nothing else changes; what the mapping does to other characters is left unsaid.
#[verifier::external_body]
pub(crate) fn to_lower(s: &str) -> (r: String)
    ensures
        r@ == lowercase(s@),
        ascii(s@) ==> r@ == ascii_lower(s@),
{
    s.to_lowercase()
}

/// What `String::from_utf8_lossy` of std makes of bytes: the text that they encode, each
/// ill-formed stretch replaced by U+FFFD.
pub uninterp spec fn utf8_lossy(bytes: Seq<u8>) -> Seq<char>;

/// The text of some bytes, by `String::from_utf8_lossy` of std. The contract claims that the
/// result depends on the bytes alone, and that well-formed UTF-8 comes out as the characters
/// that it encodes; how ill-formed bytes are replaced is left unsaid.
#[verifier::external_body]
pub(crate) fn from_utf8_lossy(bytes: &[u8]) -> (r: String)
    ensures
        r@ == utf8_lossy(bytes@),
        vstd::utf8::valid_utf8(bytes@) ==> r@ == vstd::utf8::decode_utf8(bytes@),
{
    String::from_utf8_lossy(bytes).into_owned()
}

/// The text of bytes that are well-formed UTF-8; nothing where they are not.
pub open spec fn utf8_text(bytes: Seq<u8>) -> Seq<char> {
    if vstd::utf8::valid_utf8(bytes) {
        vstd::utf8::decode_utf8(bytes)
    } else {
        Seq::empty()
    }
}

/// The text of some bytes, by `String::from_utf8` of std. The contract claims that there is one
/// just where the bytes are well-formed UTF-8, and that it is the characters that they encode.
#[verifier::external_body]
fn from_utf8(bytes: Vec<u8>) -> (r: Option<String>)
    ensures
        match r {
            Some(s) => vstd::utf8::valid_utf8(bytes@) && s@ == vstd::utf8::decode_utf8(bytes@),
            None => !vstd::utf8::valid_utf8(bytes@),
        },
{
    String::from_utf8(bytes).ok()
}

/// The text of bytes that are well-formed UTF-8; nothing where they are not.
pub fn text_in(bytes: Vec<u8>) -> (r: String)
    ensures
        r@ == utf8_text(bytes@),
{
    match from_utf8(bytes) {
        Some(s) => s,
        None => {
            let none = String::new();
            assert(none@ =~= Seq::<char>::empty());
            none
        },
    }
}

/// The characters of each string of a list.
pub open spec fn strs(v: Seq<String>) -> Seq<Seq<char>> {
    Seq::new(v.len(), |i: int| v[i]@)
}

/// The characters of an optional string.
pub open spec fn opt(o: Option<String>) -> Option<Seq<char>> {
    match o {
        Some(s) => Some(s@),
        None => None,
    }
}

/// The characters of an optional slice of text.
pub open spec fn opt_str(o: Option<&str>) -> Option<Seq<char>> {
    match o {
        Some(s) => Some(s@),
        None => None,
    }
}

/// The characters of the text, one by one.
pub fn chars(s: &str) -> (r: Vec<char>)
    ensures
        r@ == s@,
{
    let mut out: Vec<char> = Vec::new();
    for c in it: s.chars()
        invariant
            it.seq() == s@,
            out@ == s@.subrange(0, it.index() as int),
    {
        out.push(c);
    }
    out
}

/// The text that the characters spell.
pub fn string_of(v: &[char]) -> (r: String)
    ensures
        r@ == v@,
{
    let mut out = String::new();
    for i in 0..v.len()
        invariant
            out@ == v@.subrange(0, i as int),
    {
        out.push(v[i]);
    }
    out
}

/// Whether two texts are the same.
pub fn same(a: &str, b: &str) -> (r: bool)
    ensures
        r == (a@ == b@),
{
    let x = chars(a);
    let y = chars(b);
    if x.len() != y.len() {
        return false;
    }
    for i in 0..x.len()
        invariant
            x@ == a@,
            y@ == b@,
            x.len() == y.len(),
            forall|j: int| 0 <= j < i ==> x@[j] == y@[j],
    {
        if x[i] != y[i] {
            assert(a@[i as int] != b@[i as int]);
            return false;
        }
    }
    assert(a@ =~= b@);
    true
}

/// Whether the list holds the text.
pub open spec fn has_str(list: Seq<String>, s: Seq<char>) -> bool {
    strs(list).contains(s)
}

/// Whether a text is in a list.
pub fn in_list(list: &[String], s: &str) -> (r: bool)
    ensures
        r == has_str(list@, s@),
{
    for i in 0..list.len()
        invariant
            forall|j: int| 0 <= j < i ==> strs(list@)[j] != s@,
    {
        if same(list[i].as_str(), s) {
            assert(strs(list@)[i as int] == s@);
            return true;
        }
    }
    false
}

/// A copy of a list of strings.
pub fn copy_list(list: &[String]) -> (r: Vec<String>)
    ensures
        strs(r@) == strs(list@),
{
    let mut out: Vec<String> = Vec::new();
    for i in 0..list.len()
        invariant
            strs(out@) == strs(list@).subrange(0, i as int),
    {
        let ghost prev = out@;
        out.push(list[i].clone());
        assert(strs(out@) =~= strs(prev).push(list@[i as int]@));
        assert(strs(out@) =~= strs(list@).subrange(0, i + 1));
    }
    assert(strs(list@).subrange(0, list@.len() as int) =~= strs(list@));
    out
}

/// `pat` stands in `s` at position `i`.
pub open spec fn occurs_at(s: Seq<char>, pat: Seq<char>, i: int) -> bool {
    &&& 0 <= i <= s.len() - pat.len()
    &&& s.subrange(i, i + pat.len()) =~= pat
}

/// `pat` stands somewhere in `s`.
pub open spec fn contains(s: Seq<char>, pat: Seq<char>) -> bool {
    exists|i: int| occurs_at(s, pat, i)
}

/// The least position at or after `from` at which `pat` stands in `s`.
pub open spec fn find_from(s: Seq<char>, pat: Seq<char>, from: int) -> Option<int>
    decreases s.len() - from,
{
    if from < 0 || from > s.len() - pat.len() {
        None
    } else if occurs_at(s, pat, from) {
        Some(from)
    } else {
        find_from(s, pat, from + 1)
    }
}

/// The least position at which `pat` stands in `s`.
pub open spec fn find(s: Seq<char>, pat: Seq<char>) -> Option<int> {
    find_from(s, pat, 0)
}

/// The greatest position at or before `last` at which `pat` stands in `s`.
pub open spec fn rfind_to(s: Seq<char>, pat: Seq<char>, last: int) -> Option<int>
    decreases last + 1,
{
    if last < 0 {
        None
    } else if occurs_at(s, pat, last) {
        Some(last)
    } else {
        rfind_to(s, pat, last - 1)
    }
}

/// The greatest position at which `pat` stands in `s`.
pub open spec fn rfind(s: Seq<char>, pat: Seq<char>) -> Option<int> {
    rfind_to(s, pat, s.len() - pat.len())
}

/// A first position is one at which the pattern stands, with none before it; where there is no
/// first position the pattern stands nowhere.
pub proof fn lemma_find_from(s: Seq<char>, pat: Seq<char>, from: int)
    requires
        0 <= from,
    ensures
        match find_from(s, pat, from) {
            Some(i) => from <= i && occurs_at(s, pat, i) && forall|j: int|
                from <= j < i ==> !occurs_at(s, pat, j),
            None => forall|j: int| from <= j ==> !occurs_at(s, pat, j),
        },
    decreases s.len() - from,
{
    if from <= s.len() - pat.len() && !occurs_at(s, pat, from) {
        lemma_find_from(s, pat, from + 1);
        assert forall|j: int| from <= j && find_from(s, pat, from + 1) is None implies !occurs_at(
            s,
            pat,
            j,
        ) by {}
    }
}

/// A last position is one at which the pattern stands, with none after it up to the bound;
/// where there is no last position the pattern stands nowhere up to the bound.
pub proof fn lemma_rfind_to(s: Seq<char>, pat: Seq<char>, last: int)
    ensures
        match rfind_to(s, pat, last) {
            Some(i) => 0 <= i <= last && occurs_at(s, pat, i) && forall|j: int|
                i < j <= last ==> !occurs_at(s, pat, j),
            None => forall|j: int| j <= last ==> !occurs_at(s, pat, j),
        },
    decreases last + 1,
{
    if last >= 0 && !occurs_at(s, pat, last) {
        lemma_rfind_to(s, pat, last - 1);
    }
}

/// A text holds a pattern exactly when the pattern has a first position in it.
pub proof fn lemma_contains_find(s: Seq<char>, pat: Seq<char>)
    ensures
        contains(s, pat) <==> find(s, pat) is Some,
{
    lemma_find_from(s, pat, 0);
}

/// Whether `pat` stands in `s` at position `i`.
pub fn stands_at(s: &[char], pat: &[char], i: usize) -> (r: bool)
    ensures
        r == occurs_at(s@, pat@, i as int),
{
    if pat.len() > s.len() || i > s.len() - pat.len() {
        return false;
    }
    for k in 0..pat.len()
        invariant
            i + pat.len() <= s.len(),
            forall|j: int| 0 <= j < k ==> s@[i + j] == pat@[j],
    {
        if s[i + k] != pat[k] {
            assert(s@.subrange(i as int, i + pat@.len())[k as int] != pat@[k as int]);
            return false;
        }
    }
    assert(s@.subrange(i as int, i + pat@.len()) =~= pat@);
    true
}

/// The least position at or after `from` at which `pat` stands.
pub fn position(s: &[char], pat: &[char], from: usize) -> (r: Option<usize>)
    ensures
        match find_from(s@, pat@, from as int) {
            Some(i) => r is Some && r->0 == i && r->0 + pat@.len() <= s@.len(),
            None => r is None,
        },
{
    if pat.len() > s.len() {
        return None;
    }
    let last: usize = s.len() - pat.len();
    let mut i: usize = from;
    while i <= last
        invariant
            from <= i,
            last == s@.len() - pat@.len(),
            find_from(s@, pat@, from as int) == find_from(s@, pat@, i as int),
        decreases last + 1 - i,
    {
        if stands_at(s, pat, i) {
            return Some(i);
        }
        if i == last {
            assert(find_from(s@, pat@, i + 1) is None);
            return None;
        }
        i = i + 1;
    }
    None
}

/// The greatest position at which `pat` stands.
pub fn last_position(s: &[char], pat: &[char]) -> (r: Option<usize>)
    ensures
        match rfind(s@, pat@) {
            Some(i) => r is Some && r->0 == i && r->0 + pat@.len() <= s@.len(),
            None => r is None,
        },
{
    if pat.len() > s.len() {
        return None;
    }
    let mut i: usize = s.len() - pat.len();
    loop
        invariant
            i <= s@.len() - pat@.len(),
            rfind(s@, pat@) == rfind_to(s@, pat@, i as int),
        decreases i,
    {
        if stands_at(s, pat, i) {
            return Some(i);
        }
        if i == 0 {
            assert(rfind_to(s@, pat@, -1) is None);
            return None;
        }
        i = i - 1;
    }
}

/// Whether `pat` stands somewhere in the text.
pub fn holds(s: &str, pat: &str) -> (r: bool)
    ensures
        r == contains(s@, pat@),
{
    let x = chars(s);
    let p = chars(pat);
    proof {
        lemma_contains_find(s@, pat@);
    }
    position(&x, &p, 0).is_some()
}

/// Whether the text begins with `pat`.
pub fn begins(s: &str, pat: &str) -> (r: bool)
    ensures
        r == pat@.is_prefix_of(s@),
{
    let x = chars(s);
    let p = chars(pat);
    let r = stands_at(&x, &p, 0);
    proof {
        if pat@.len() <= s@.len() {
            assert(s@.subrange(0, pat@.len() as int) =~= s@.take(pat@.len() as int));
        }
    }
    r
}

/// Whether the text ends with `pat`.
pub fn ends(s: &str, pat: &str) -> (r: bool)
    ensures
        r == pat@.is_suffix_of(s@),
{
    let x = chars(s);
    let p = chars(pat);
    if p.len() > x.len() {
        return false;
    }
    let r = stands_at(&x, &p, x.len() - p.len());
    proof {
        assert(s@.subrange(s@.len() - pat@.len(), s@.len() as int) =~= s@.skip(
            s@.len() - pat@.len(),
        ));
    }
    r
}

/// The characters with the Unicode property White_Space.
pub open spec fn space(c: char) -> bool {
    ||| '\u{9}' <= c <= '\u{d}'
    ||| c == '\u{20}'
    ||| c == '\u{85}'
    ||| c == '\u{a0}'
    ||| c == '\u{1680}'
    ||| '\u{2000}' <= c <= '\u{200a}'
    ||| c == '\u{2028}'
    ||| c == '\u{2029}'
    ||| c == '\u{202f}'
    ||| c == '\u{205f}'
    ||| c == '\u{3000}'
}

/// Whether a character is white space.
pub fn is_space(c: char) -> (r: bool)
    ensures
        r == space(c),
{
    ('\u{9}' <= c && c <= '\u{d}') || c == '\u{20}' || c == '\u{85}' || c == '\u{a0}' || c == '\u{1680}'
        || ('\u{2000}' <= c && c <= '\u{200a}') || c == '\u{2028}' || c == '\u{2029}' || c == '\u{202f}'
        || c == '\u{205f}' || c == '\u{3000}'
}

/// The text without its leading white space.
pub open spec fn trim_start(s: Seq<char>) -> Seq<char>
    decreases s.len(),
{
    if s.len() > 0 && space(s[0]) {
        trim_start(s.subrange(1, s.len() as int))
    } else {
        s
    }
}

/// The text without its trailing white space.
pub open spec fn trim_end(s: Seq<char>) -> Seq<char>
    decreases s.len(),
{
    if s.len() > 0 && space(s.last()) {
        trim_end(s.drop_last())
    } else {
        s
    }
}

/// The text without white space at either end.
pub open spec fn trim(s: Seq<char>) -> Seq<char> {
    trim_end(trim_start(s))
}

/// The text without its leading characters out of `set`.
pub open spec fn strip_start(s: Seq<char>, set: Seq<char>) -> Seq<char>
    decreases s.len(),
{
    if s.len() > 0 && set.contains(s[0]) {
        strip_start(s.subrange(1, s.len() as int), set)
    } else {
        s
    }
}

/// The text without its trailing characters out of `set`.
pub open spec fn strip_end(s: Seq<char>, set: Seq<char>) -> Seq<char>
    decreases s.len(),
{
    if s.len() > 0 && set.contains(s.last()) {
        strip_end(s.drop_last(), set)
    } else {
        s
    }
}

/// The text with every repetition of `pat` at its end taken off.
pub open spec fn strip_end_all(s: Seq<char>, pat: Seq<char>) -> Seq<char>
    decreases s.len(),
{
    if pat.len() > 0 && pat.is_suffix_of(s) {
        strip_end_all(s.subrange(0, s.len() - pat.len()), pat)
    } else {
        s
    }
}

/// How many characters stand before the first `c`: all of them where there is none.
pub open spec fn upto(s: Seq<char>, c: char) -> nat
    decreases s.len(),
{
    if s.len() == 0 || s[0] == c {
        0
    } else {
        1 + upto(s.subrange(1, s.len() as int), c)
    }
}

/// How many characters stand before the first white space: all of them where there is none.
pub open spec fn upto_space(s: Seq<char>) -> nat
    decreases s.len(),
{
    if s.len() == 0 || space(s[0]) {
        0
    } else {
        1 + upto_space(s.subrange(1, s.len() as int))
    }
}

/// A line without the carriage return that may end it.
pub open spec fn strip_cr(s: Seq<char>) -> Seq<char> {
    if s.len() > 0 && s.last() == '\r' {
        s.drop_last()
    } else {
        s
    }
}

/// The lines of a text. A line ends at a line feed, and a carriage return right before that
/// line feed belongs to the ending. What follows the last line feed is a line if it is not
/// empty.
pub open spec fn lines(s: Seq<char>) -> Seq<Seq<char>>
    decreases s.len(),
{
    if s.len() == 0 {
        Seq::empty()
    } else {
        let k = upto(s, '\n');
        if k < s.len() {
            seq![strip_cr(s.subrange(0, k as int))] + lines(s.subrange(k as int + 1, s.len() as int))
        } else {
            seq![s]
        }
    }
}

/// The pieces of a text between the occurrences of `c`.
pub open spec fn split(s: Seq<char>, c: char) -> Seq<Seq<char>>
    decreases s.len(),
{
    let k = upto(s, c);
    if k < s.len() {
        seq![s.subrange(0, k as int)] + split(s.subrange(k as int + 1, s.len() as int), c)
    } else {
        seq![s]
    }
}

/// The stretches of a text between its white space.
pub open spec fn words(s: Seq<char>) -> Seq<Seq<char>>
    decreases s.len(),
{
    let t = trim_start(s);
    if t.len() == 0 {
        Seq::empty()
    } else {
        proof {
            lemma_trim_start(s);
            lemma_upto_space(t);
        }
        let k = upto_space(t);
        seq![t.subrange(0, k as int)] + words(t.subrange(k as int, t.len() as int))
    }
}

/// What is left after leading white space is taken off is a suffix, and does not begin with
/// white space.
pub proof fn lemma_trim_start(s: Seq<char>)
    ensures
        trim_start(s).len() <= s.len(),
        trim_start(s) == s.subrange(s.len() - trim_start(s).len(), s.len() as int),
        trim_start(s).len() > 0 ==> !space(trim_start(s)[0]),
        forall|i: int| 0 <= i < s.len() - trim_start(s).len() ==> space(#[trigger] s[i]),
    decreases s.len(),
{
    if s.len() > 0 && space(s[0]) {
        let t = s.subrange(1, s.len() as int);
        lemma_trim_start(t);
        assert forall|i: int| 0 <= i < s.len() - trim_start(s).len() implies space(
            #[trigger] s[i],
        ) by {
            if i > 0 {
                assert(s[i] == t[i - 1]);
            }
        }
    } else {
        assert(s =~= s.subrange(0, s.len() as int));
    }
}

/// A stretch up to a character lies within the text, holds no such character, and ends at one
/// or at the end of the text.
pub proof fn lemma_upto(s: Seq<char>, c: char)
    ensures
        upto(s, c) <= s.len(),
        forall|i: int| 0 <= i < upto(s, c) ==> #[trigger] s[i] != c,
        upto(s, c) < s.len() ==> s[upto(s, c) as int] == c,
    decreases s.len(),
{
    if s.len() > 0 && s[0] != c {
        let t = s.subrange(1, s.len() as int);
        lemma_upto(t, c);
        assert forall|i: int| 0 <= i < upto(s, c) implies #[trigger] s[i] != c by {
            if i > 0 {
                assert(s[i] == t[i - 1]);
            }
        }
    }
}

/// A stretch up to white space lies within the text, holds no white space, and ends at one or
/// at the end of the text.
pub proof fn lemma_upto_space(s: Seq<char>)
    ensures
        upto_space(s) <= s.len(),
        forall|i: int| 0 <= i < upto_space(s) ==> !space(#[trigger] s[i]),
        upto_space(s) < s.len() ==> space(s[upto_space(s) as int]),
        s.len() > 0 && !space(s[0]) ==> upto_space(s) > 0,
    decreases s.len(),
{
    if s.len() > 0 && !space(s[0]) {
        let t = s.subrange(1, s.len() as int);
        lemma_upto_space(t);
        assert forall|i: int| 0 <= i < upto_space(s) implies !space(#[trigger] s[i]) by {
            if i > 0 {
                assert(s[i] == t[i - 1]);
            }
        }
    }
}

/// The texts one after the other, with `sep` between any two.
pub open spec fn joined(parts: Seq<Seq<char>>, sep: Seq<char>) -> Seq<char>
    decreases parts.len(),
{
    if parts.len() == 0 {
        Seq::empty()
    } else if parts.len() == 1 {
        parts[0]
    } else {
        joined(parts.drop_last(), sep) + sep + parts.last()
    }
}

/// The text with each occurrence of `pat`, taken from the left without overlap, replaced by
/// `to`.
pub open spec fn replaced(s: Seq<char>, pat: Seq<char>, to: Seq<char>) -> Seq<char>
    decreases s.len(),
{
    match find(s, pat) {
        Some(k) => if pat.len() > 0 && 0 <= k && k + pat.len() <= s.len() {
            s.subrange(0, k) + to + replaced(s.subrange(k + pat.len(), s.len() as int), pat, to)
        } else {
            s
        },
        None => s,
    }
}

/// The character of a decimal digit.
pub open spec fn digit(d: nat) -> char {
    (48 + d) as char
}

/// The decimal digits of a number, without leading zeros.
pub open spec fn decimal(n: nat) -> Seq<char>
    decreases n,
{
    if n < 10 {
        seq![digit(n)]
    } else {
        decimal(n / 10).push(digit(n % 10))
    }
}

/// A stretch of characters as a slice of its own.
pub fn cut(s: &[char], from: usize, to: usize) -> (r: &[char])
    requires
        from <= to <= s@.len(),
    ensures
        r@ == s@.subrange(from as int, to as int),
{
    vstd::slice::slice_subrange(s, from, to)
}

/// Takes leading white space off.
pub fn cut_start(s: &[char]) -> (r: &[char])
    ensures
        r@ == trim_start(s@),
{
    let mut i: usize = 0;
    assert(s@.subrange(0, s@.len() as int) =~= s@);
    while i < s.len() && is_space(s[i])
        invariant
            i <= s@.len(),
            trim_start(s@) == trim_start(s@.subrange(i as int, s@.len() as int)),
        decreases s@.len() - i,
    {
        assert(s@.subrange(i as int, s@.len() as int).subrange(1, s@.len() - i) =~= s@.subrange(
            i + 1,
            s@.len() as int,
        ));
        i = i + 1;
    }
    cut(s, i, s.len())
}

/// Takes trailing white space off.
pub fn cut_end(s: &[char]) -> (r: &[char])
    ensures
        r@ == trim_end(s@),
{
    let mut n: usize = s.len();
    assert(s@.subrange(0, s@.len() as int) =~= s@);
    while n > 0 && is_space(s[n - 1])
        invariant
            n <= s@.len(),
            trim_end(s@) == trim_end(s@.subrange(0, n as int)),
        decreases n,
    {
        assert(s@.subrange(0, n as int).drop_last() =~= s@.subrange(0, n - 1));
        n = n - 1;
    }
    cut(s, 0, n)
}

/// Takes white space off both ends.
pub fn cut_both(s: &[char]) -> (r: &[char])
    ensures
        r@ == trim(s@),
{
    cut_end(cut_start(s))
}

/// Whether a set of characters holds `c`.
pub fn in_set(set: &[char], c: char) -> (r: bool)
    ensures
        r == set@.contains(c),
{
    for i in 0..set.len()
        invariant
            forall|j: int| 0 <= j < i ==> set@[j] != c,
    {
        if set[i] == c {
            return true;
        }
    }
    false
}

/// Takes leading characters out of `set` off.
pub fn cut_start_set<'a>(s: &'a [char], set: &[char]) -> (r: &'a [char])
    ensures
        r@ == strip_start(s@, set@),
{
    let mut i: usize = 0;
    assert(s@.subrange(0, s@.len() as int) =~= s@);
    while i < s.len() && in_set(set, s[i])
        invariant
            i <= s@.len(),
            strip_start(s@, set@) == strip_start(s@.subrange(i as int, s@.len() as int), set@),
        decreases s@.len() - i,
    {
        assert(s@.subrange(i as int, s@.len() as int).subrange(1, s@.len() - i) =~= s@.subrange(
            i + 1,
            s@.len() as int,
        ));
        i = i + 1;
    }
    cut(s, i, s.len())
}

/// Takes trailing characters out of `set` off.
pub fn cut_end_set<'a>(s: &'a [char], set: &[char]) -> (r: &'a [char])
    ensures
        r@ == strip_end(s@, set@),
{
    let mut n: usize = s.len();
    assert(s@.subrange(0, s@.len() as int) =~= s@);
    while n > 0 && in_set(set, s[n - 1])
        invariant
            n <= s@.len(),
            strip_end(s@, set@) == strip_end(s@.subrange(0, n as int), set@),
        decreases n,
    {
        assert(s@.subrange(0, n as int).drop_last() =~= s@.subrange(0, n - 1));
        n = n - 1;
    }
    cut(s, 0, n)
}

/// Takes every repetition of `pat` off the end.
pub fn cut_end_all<'a>(s: &'a [char], pat: &[char]) -> (r: &'a [char])
    ensures
        r@ == strip_end_all(s@, pat@),
{
    let mut n: usize = s.len();
    assert(s@.subrange(0, s@.len() as int) =~= s@);
    if pat.len() == 0 {
        return cut(s, 0, n);
    }
    while n >= pat.len() && stands_at(s, pat, n - pat.len())
        invariant
            n <= s@.len(),
            pat@.len() > 0,
            strip_end_all(s@, pat@) == strip_end_all(s@.subrange(0, n as int), pat@),
        decreases n,
    {
        let ghost t = s@.subrange(0, n as int);
        assert(t.subrange(t.len() - pat@.len(), t.len() as int) =~= s@.subrange(
            n - pat@.len(),
            n as int,
        ));
        assert(t.subrange(0, t.len() - pat@.len()) =~= s@.subrange(0, n - pat@.len()));
        n = n - pat.len();
    }
    proof {
        let t = s@.subrange(0, n as int);
        if pat@.is_suffix_of(t) {
            assert(s@.subrange(n - pat@.len(), n as int) =~= t.subrange(
                t.len() - pat@.len(),
                t.len() as int,
            ));
        }
    }
    cut(s, 0, n)
}

/// The position of the first `c`, or the length where there is none.
pub fn count_upto(s: &[char], c: char) -> (r: usize)
    ensures
        r == upto(s@, c),
{
    let mut i: usize = 0;
    assert(s@.subrange(0, s@.len() as int) =~= s@);
    while i < s.len() && s[i] != c
        invariant
            i <= s@.len(),
            upto(s@, c) == i + upto(s@.subrange(i as int, s@.len() as int), c),
        decreases s@.len() - i,
    {
        assert(s@.subrange(i as int, s@.len() as int).subrange(1, s@.len() - i) =~= s@.subrange(
            i + 1,
            s@.len() as int,
        ));
        i = i + 1;
    }
    i
}

/// The position of the first white space, or the length where there is none.
pub fn count_upto_space(s: &[char]) -> (r: usize)
    ensures
        r == upto_space(s@),
{
    let mut i: usize = 0;
    assert(s@.subrange(0, s@.len() as int) =~= s@);
    while i < s.len() && !is_space(s[i])
        invariant
            i <= s@.len(),
            upto_space(s@) == i + upto_space(s@.subrange(i as int, s@.len() as int)),
        decreases s@.len() - i,
    {
        assert(s@.subrange(i as int, s@.len() as int).subrange(1, s@.len() - i) =~= s@.subrange(
            i + 1,
            s@.len() as int,
        ));
        i = i + 1;
    }
    i
}

/// The characters of each string of a list of character vectors.
pub open spec fn char_vecs(v: Seq<Vec<char>>) -> Seq<Seq<char>> {
    Seq::new(v.len(), |i: int| v[i]@)
}

/// A copy of a slice of characters.
pub fn copy_chars(s: &[char]) -> (r: Vec<char>)
    ensures
        r@ == s@,
{
    let mut out: Vec<char> = Vec::new();
    for i in 0..s.len()
        invariant
            out@ == s@.subrange(0, i as int),
    {
        out.push(s[i]);
    }
    assert(s@.subrange(0, s@.len() as int) =~= s@);
    out
}

/// Cuts a text into its lines.
pub fn split_lines(s: &[char]) -> (r: Vec<Vec<char>>)
    ensures
        char_vecs(r@) == lines(s@),
{
    let mut out: Vec<Vec<char>> = Vec::new();
    let mut i: usize = 0;
    assert(s@.subrange(0, s@.len() as int) =~= s@);
    assert(char_vecs(out@) + lines(s@) =~= lines(s@));
    while i < s.len()
        invariant
            i <= s@.len(),
            lines(s@) == char_vecs(out@) + lines(s@.subrange(i as int, s@.len() as int)),
        decreases s@.len() - i,
    {
        let rest = cut(s, i, s.len());
        let k: usize = count_upto(rest, '\n');
        proof {
            lemma_upto(rest@, '\n');
        }
        let ghost before = out@;
        if k < rest.len() {
            let line = cut(rest, 0, k);
            let piece = if line.len() > 0 && line[line.len() - 1] == '\r' {
                assert(line@.drop_last() =~= line@.subrange(0, line@.len() - 1));
                cut(line, 0, line.len() - 1)
            } else {
                line
            };
            out.push(copy_chars(piece));
            assert(rest@.subrange(k as int + 1, rest@.len() as int) =~= s@.subrange(
                i + k + 1,
                s@.len() as int,
            ));
            assert(char_vecs(out@) =~= char_vecs(before) + seq![strip_cr(line@)]);
            assert(char_vecs(before) + (seq![strip_cr(line@)] + lines(
                s@.subrange(i + k + 1, s@.len() as int),
            )) =~= char_vecs(out@) + lines(s@.subrange(i + k + 1, s@.len() as int)));
            i = i + k + 1;
        } else {
            out.push(copy_chars(rest));
            assert(char_vecs(out@) =~= char_vecs(before) + seq![rest@]);
            i = s.len();
            assert(lines(s@.subrange(i as int, s@.len() as int)) =~= Seq::<Seq<char>>::empty());
            assert(char_vecs(out@) =~= char_vecs(out@) + Seq::<Seq<char>>::empty());
        }
    }
    assert(char_vecs(out@) =~= char_vecs(out@) + lines(s@.subrange(i as int, s@.len() as int)));
    out
}

/// Cuts a text at each `c`.
pub fn split_at_char(s: &[char], c: char) -> (r: Vec<Vec<char>>)
    ensures
        char_vecs(r@) == split(s@, c),
{
    let mut out: Vec<Vec<char>> = Vec::new();
    let mut i: usize = 0;
    assert(s@.subrange(0, s@.len() as int) =~= s@);
    assert(char_vecs(out@) + split(s@, c) =~= split(s@, c));
    loop
        invariant
            i <= s@.len(),
            split(s@, c) == char_vecs(out@) + split(s@.subrange(i as int, s@.len() as int), c),
        decreases s@.len() - i,
    {
        let rest = cut(s, i, s.len());
        let k: usize = count_upto(rest, c);
        proof {
            lemma_upto(rest@, c);
        }
        let ghost before = out@;
        if k < rest.len() {
            out.push(copy_chars(cut(rest, 0, k)));
            assert(rest@.subrange(k as int + 1, rest@.len() as int) =~= s@.subrange(
                i + k + 1,
                s@.len() as int,
            ));
            assert(char_vecs(out@) =~= char_vecs(before) + seq![rest@.subrange(0, k as int)]);
            assert(char_vecs(before) + (seq![rest@.subrange(0, k as int)] + split(
                s@.subrange(i + k + 1, s@.len() as int),
                c,
            )) =~= char_vecs(out@) + split(s@.subrange(i + k + 1, s@.len() as int), c));
            i = i + k + 1;
        } else {
            out.push(copy_chars(rest));
            assert(char_vecs(out@) =~= char_vecs(before) + seq![rest@]);
            return out;
        }
    }
}

/// Cuts a text into the stretches between its white space.
pub fn split_words(s: &[char]) -> (r: Vec<Vec<char>>)
    ensures
        char_vecs(r@) == words(s@),
{
    let mut out: Vec<Vec<char>> = Vec::new();
    let mut i: usize = 0;
    assert(s@.subrange(0, s@.len() as int) =~= s@);
    assert(char_vecs(out@) + words(s@) =~= words(s@));
    loop
        invariant
            i <= s@.len(),
            words(s@) == char_vecs(out@) + words(s@.subrange(i as int, s@.len() as int)),
        decreases s@.len() - i,
    {
        let rest = cut(s, i, s.len());
        let t = cut_start(rest);
        proof {
            lemma_trim_start(rest@);
            lemma_upto_space(t@);
        }
        if t.len() == 0 {
            assert(char_vecs(out@) =~= char_vecs(out@) + words(rest@));
            return out;
        }
        let k: usize = count_upto_space(t);
        let ghost before = out@;
        let start: usize = s.len() - t.len();
        assert(t@ =~= s@.subrange(start as int, s@.len() as int));
        out.push(copy_chars(cut(t, 0, k)));
        assert(t@.subrange(k as int, t@.len() as int) =~= s@.subrange(
            start + k,
            s@.len() as int,
        ));
        assert(char_vecs(out@) =~= char_vecs(before) + seq![t@.subrange(0, k as int)]);
        assert(char_vecs(before) + (seq![t@.subrange(0, k as int)] + words(
            s@.subrange(start + k, s@.len() as int),
        )) =~= char_vecs(out@) + words(s@.subrange(start + k, s@.len() as int)));
        i = start + k;
    }
}

/// The decimal digits of a number.
pub fn number(n: u64) -> (r: String)
    ensures
        r@ == decimal(n as nat),
    decreases n,
{
    let d: u64 = n % 10;
    let c: char = (48u8 + d as u8) as char;
    if n < 10 {
        let mut out = String::new();
        out.push(c);
        assert(out@ =~= seq![digit(n as nat)]);
        out
    } else {
        let mut out = number(n / 10);
        out.push(c);
        out
    }
}

/// Puts the texts one after the other, with `sep` between any two.
pub fn join(parts: &[String], sep: &str) -> (r: String)
    ensures
        r@ == joined(strs(parts@), sep@),
{
    let mut out = String::new();
    for i in 0..parts.len()
        invariant
            out@ == joined(strs(parts@).subrange(0, i as int), sep@),
    {
        let ghost before = strs(parts@).subrange(0, i as int);
        let ghost after = strs(parts@).subrange(0, i + 1);
        assert(after.drop_last() =~= before);
        if i > 0 {
            out.append(sep);
        }
        out.append(parts[i].as_str());
        assert(out@ =~= joined(after, sep@));
    }
    assert(strs(parts@).subrange(0, parts@.len() as int) =~= strs(parts@));
    out
}

/// Replaces each occurrence of `pat`, which is not empty, by `to`.
pub fn replace(s: &[char], pat: &[char], to: &[char]) -> (r: Vec<char>)
    requires
        pat@.len() > 0,
    ensures
        r@ == replaced(s@, pat@, to@),
{
    let mut out: Vec<char> = Vec::new();
    let mut i: usize = 0;
    assert(s@.subrange(0, s@.len() as int) =~= s@);
    assert(out@ + replaced(s@, pat@, to@) =~= replaced(s@, pat@, to@));
    loop
        invariant
            i <= s@.len(),
            pat@.len() > 0,
            replaced(s@, pat@, to@) == out@ + replaced(
                s@.subrange(i as int, s@.len() as int),
                pat@,
                to@,
            ),
        decreases s@.len() - i,
    {
        let rest = cut(s, i, s.len());
        match position(rest, pat, 0) {
            None => {
                let ghost before = out@;
                append_chars(&mut out, rest);
                assert(out@ =~= before + rest@);
                return out;
            },
            Some(k) => {
                proof {
                    lemma_find_from(rest@, pat@, 0);
                }
                let ghost before = out@;
                append_chars(&mut out, cut(rest, 0, k));
                append_chars(&mut out, to);
                let ghost tail = s@.subrange(i + k + pat@.len(), s@.len() as int);
                assert(rest@.subrange(k + pat@.len(), rest@.len() as int) =~= tail);
                assert(before + (rest@.subrange(0, k as int) + to@ + replaced(tail, pat@, to@))
                    =~= out@ + replaced(tail, pat@, to@));
                i = i + k + pat.len();
            },
        }
    }
}

/// Appends characters.
pub fn append_chars(out: &mut Vec<char>, s: &[char])
    ensures
        final(out)@ == old(out)@ + s@,
{
    let ghost before = out@;
    for i in 0..s.len()
        invariant
            out@ == before + s@.subrange(0, i as int),
    {
        out.push(s[i]);
        assert(out@ =~= before + s@.subrange(0, i + 1));
    }
    assert(out@ =~= before + s@);
}

/// Two texts, one after the other.
pub fn cat(a: &str, b: &str) -> (r: String)
    ensures
        r@ == a@ + b@,
{
    let mut out = String::new();
    out.append(a);
    out.append(b);
    assert(out@ =~= a@ + b@);
    out
}

/// Three texts, one after the other.
pub fn cat3(a: &str, b: &str, c: &str) -> (r: String)
    ensures
        r@ == a@ + b@ + c@,
{
    let mut out = cat(a, b);
    out.append(c);
    out
}

/// The text of each character vector.
pub fn strings_of(v: &[Vec<char>]) -> (r: Vec<String>)
    ensures
        strs(r@) == char_vecs(v@),
{
    let mut out: Vec<String> = Vec::new();
    for i in 0..v.len()
        invariant
            strs(out@) == char_vecs(v@).subrange(0, i as int),
    {
        let ghost prev = out@;
        out.push(string_of(v[i].as_slice()));
        assert(strs(out@) =~= strs(prev).push(v@[i as int]@));
        assert(strs(out@) =~= char_vecs(v@).subrange(0, i + 1));
    }
    assert(char_vecs(v@).subrange(0, v@.len() as int) =~= char_vecs(v@));
    out
}

/// The text without white space at either end.
pub fn trimmed(s: &str) -> (r: String)
    ensures
        r@ == trim(s@),
{
    let x = chars(s);
    string_of(cut_both(x.as_slice()))
}

/// How many characters stand before the first one out of `set`: all of them where there is
/// none.
pub open spec fn upto_any(s: Seq<char>, set: Seq<char>) -> nat
    decreases s.len(),
{
    if s.len() == 0 || set.contains(s[0]) {
        0
    } else {
        1 + upto_any(s.subrange(1, s.len() as int), set)
    }
}

/// The position of the first character out of `set`, or the length where there is none.
pub fn count_upto_any(s: &[char], set: &[char]) -> (r: usize)
    ensures
        r == upto_any(s@, set@),
        r <= s@.len(),
{
    let mut i: usize = 0;
    assert(s@.subrange(0, s@.len() as int) =~= s@);
    while i < s.len() && !in_set(set, s[i])
        invariant
            i <= s@.len(),
            upto_any(s@, set@) == i + upto_any(s@.subrange(i as int, s@.len() as int), set@),
        decreases s@.len() - i,
    {
        assert(s@.subrange(i as int, s@.len() as int).subrange(1, s@.len() - i) =~= s@.subrange(
            i + 1,
            s@.len() as int,
        ));
        i = i + 1;
    }
    i
}

/// A letter of the basic Latin alphabet.
pub open spec fn latin_letter(c: char) -> bool {
    ('a' <= c && c <= 'z') || ('A' <= c && c <= 'Z')
}

/// How many bytes a character takes in UTF-8.
pub open spec fn width(c: char) -> nat {
    if (c as u32) < 0x80 {
        1
    } else if (c as u32) < 0x800 {
        2
    } else if (c as u32) < 0x10000 {
        3
    } else {
        4
    }
}

/// How many bytes a character takes in UTF-8.
pub fn char_width(c: char) -> (r: usize)
    ensures
        r == width(c),
{
    let code: u32 = c as u32;
    if code < 0x80 {
        1
    } else if code < 0x800 {
        2
    } else if code < 0x10000 {
        3
    } else {
        4
    }
}

/// How many bytes a text takes in UTF-8.
pub open spec fn byte_len(s: Seq<char>) -> nat
    decreases s.len(),
{
    if s.len() == 0 {
        0
    } else {
        width(s[0]) + byte_len(s.subrange(1, s.len() as int))
    }
}

/// The parts that are not empty.
pub open spec fn filled(parts: Seq<Seq<char>>) -> Seq<Seq<char>>
    decreases parts.len(),
{
    if parts.len() == 0 {
        Seq::empty()
    } else if parts.last().len() == 0 {
        filled(parts.drop_last())
    } else {
        filled(parts.drop_last()).push(parts.last())
    }
}

/// The parts that are not empty.
pub fn keep_filled(parts: &[Vec<char>]) -> (r: Vec<String>)
    ensures
        strs(r@) == filled(char_vecs(parts@)),
{
    let mut out: Vec<String> = Vec::new();
    let ghost all = char_vecs(parts@);
    assert(strs(out@) =~= filled(all.subrange(0, 0)));
    for i in 0..parts.len()
        invariant
            all == char_vecs(parts@),
            strs(out@) == filled(all.subrange(0, i as int)),
    {
        assert(all.subrange(0, i + 1).drop_last() =~= all.subrange(0, i as int));
        let ghost before = out@;
        if parts[i].len() > 0 {
            out.push(string_of(parts[i].as_slice()));
            assert(strs(out@) =~= strs(before).push(all[i as int]));
        }
    }
    assert(all.subrange(0, all.len() as int) =~= all);
    out
}

/// Trimming takes white space off both ends and nothing else: what is left neither begins nor
/// ends with white space.
pub proof fn trimming_takes_only_space(s: Seq<char>)
    ensures
        exists|i: int, j: int|
            {
                &&& 0 <= i <= j <= s.len()
                &&& trim(s) == #[trigger] s.subrange(i, j)
                &&& forall|k: int| 0 <= k < i ==> space(#[trigger] s[k])
                &&& forall|k: int| j <= k < s.len() ==> space(#[trigger] s[k])
            },
        trim(s).len() > 0 ==> !space(trim(s)[0]) && !space(trim(s).last()),
{
    let (i, t) = (s.len() - trim_start(s).len(), trim_start(s));
    lemma_trim_start(s);
    lemma_cut_back(t);
    let j = i + trim_end(t).len();
    assert(trim(s) =~= s.subrange(i, j));
    assert forall|k: int| j <= k < s.len() implies space(#[trigger] s[k]) by {
        assert(t[k - i] == s[k]);
    }
}

proof fn lemma_cut_back(s: Seq<char>)
    ensures
        trim_end(s).len() <= s.len(),
        trim_end(s) == s.subrange(0, trim_end(s).len() as int),
        forall|k: int| trim_end(s).len() <= k < s.len() ==> space(#[trigger] s[k]),
        trim_end(s).len() > 0 ==> !space(trim_end(s).last()),
    decreases s.len(),
{
    if s.len() > 0 && space(s.last()) {
        let front = s.drop_last();
        lemma_cut_back(front);
        let n = trim_end(s).len() as int;
        assert(trim_end(s) =~= s.subrange(0, n));
        assert forall|k: int| n <= k < s.len() implies space(#[trigger] s[k]) by {
            if k < front.len() {
                assert(front[k] == s[k]);
            }
        }
    } else {
        assert(s.subrange(0, s.len() as int) =~= s);
    }
}

/// Characters out of a set are taken off the end of a text, and no others: what is left does not
/// end with one.
pub proof fn stripping_takes_only_the_set(s: Seq<char>, set: Seq<char>)
    ensures
        strip_end(s, set).len() <= s.len(),
        strip_end(s, set) == s.subrange(0, strip_end(s, set).len() as int),
        forall|k: int| strip_end(s, set).len() <= k < s.len() ==> set.contains(#[trigger] s[k]),
        strip_end(s, set).len() > 0 ==> !set.contains(strip_end(s, set).last()),
    decreases s.len(),
{
    if s.len() > 0 && set.contains(s.last()) {
        let front = s.drop_last();
        stripping_takes_only_the_set(front, set);
        let n = strip_end(s, set).len() as int;
        assert(strip_end(s, set) =~= s.subrange(0, n));
        assert forall|k: int| n <= k < s.len() implies set.contains(#[trigger] s[k]) by {
            if k < front.len() {
                assert(front[k] == s[k]);
            }
        }
    } else {
        assert(s.subrange(0, s.len() as int) =~= s);
    }
}

/// A line ends at a line feed, which is not part of it, and neither is a carriage return before it.
/// What stands behind the last line feed is a line where there is anything.
pub proof fn lines_end_at_line_feeds(line: Seq<char>, rest: Seq<char>)
    requires
        !line.contains('\n'),
    ensures
        lines(line + seq!['\n'] + rest) == seq![
            if line.len() > 0 && line.last() == '\r' {
                line.subrange(0, line.len() - 1)
            } else {
                line
            },
        ] + lines(rest),
        line.len() > 0 ==> lines(line) == seq![line],
        lines(Seq::empty()) == Seq::<Seq<char>>::empty(),
{
    let s = line + seq!['\n'] + rest;
    lemma_upto(s, '\n');
    lemma_upto(line, '\n');
    let k = upto(s, '\n') as int;
    assert(s[line.len() as int] == '\n');
    if k < line.len() {
        assert(s[k] == line[k]);
        assert(line.contains(line[k]));
    }
    assert(k == line.len());
    assert(s.subrange(0, k) =~= line);
    assert(s.subrange(k + 1, s.len() as int) =~= rest);
    let j = upto(line, '\n') as int;
    if j < line.len() {
        assert(line.contains(line[j]));
    }
}

/// A split text is its parts with the separator between them, and no part holds the separator.
pub proof fn split_parts_make_the_text(s: Seq<char>, c: char)
    ensures
        split(s, c).len() > 0,
        joined(split(s, c), seq![c]) == s,
        forall|i: int| 0 <= i < split(s, c).len() ==> !(#[trigger] split(s, c)[i]).contains(c),
    decreases s.len(),
{
    lemma_upto(s, c);
    let k = upto(s, c) as int;
    if k < s.len() {
        let rest = s.subrange(k + 1, s.len() as int);
        let first = s.subrange(0, k);
        split_parts_make_the_text(rest, c);
        lemma_joined_behind(first, split(rest, c), seq![c]);
        assert(split(s, c) =~= seq![first] + split(rest, c));
        assert(first + seq![c] + rest =~= s);
        assert forall|i: int| 0 <= i < split(s, c).len() implies !(#[trigger] split(
            s,
            c,
        )[i]).contains(c) by {
            if i > 0 {
                assert(split(s, c)[i] == split(rest, c)[i - 1]);
            } else {
                assert(split(s, c)[0] == first);
            }
        }
    } else {
        assert(split(s, c)[0] == s);
    }
}

proof fn lemma_joined_behind(first: Seq<char>, parts: Seq<Seq<char>>, sep: Seq<char>)
    requires
        parts.len() > 0,
    ensures
        joined(seq![first] + parts, sep) == first + sep + joined(parts, sep),
    decreases parts.len(),
{
    let all = seq![first] + parts;
    if parts.len() == 1 {
        assert(all.drop_last() =~= seq![first]);
        assert(joined(all.drop_last(), sep) == first);
        assert(joined(all, sep) =~= first + sep + joined(parts, sep));
    } else {
        lemma_joined_behind(first, parts.drop_last(), sep);
        assert(all.drop_last() =~= seq![first] + parts.drop_last());
        assert(joined(all, sep) =~= first + sep + joined(parts, sep));
    }
}

/// The words of a text are not empty and hold no white space, and they are all of the text but its
/// white space.
pub proof fn words_hold_no_space(s: Seq<char>)
    ensures
        forall|i: int| 0 <= i < words(s).len() ==> (#[trigger] words(s)[i]).len() > 0,
        forall|i: int, k: int|
            0 <= i < words(s).len() && 0 <= k < words(s)[i].len() ==> !space(
                #[trigger] words(s)[i][k],
            ),
        words(s).flatten() == s.filter(|c: char| !space(c)),
    decreases s.len(),
{
    let keep = |c: char| !space(c);
    let t = trim_start(s);
    lemma_trim_start(s);
    let cutoff = s.len() - t.len();
    assert(s =~= s.subrange(0, cutoff) + t);
    Seq::filter_distributes_over_add(s.subrange(0, cutoff), t, keep);
    assert forall|k: int| 0 <= k < cutoff implies !keep(#[trigger] s.subrange(0, cutoff)[k]) by {
        assert(s[k] == s.subrange(0, cutoff)[k]);
    }
    lemma_filter_none(s.subrange(0, cutoff), keep);
    if t.len() == 0 {
        assert(t =~= Seq::<char>::empty());
        reveal(Seq::filter);
        assert(words(s) =~= Seq::<Seq<char>>::empty());
    } else {
        lemma_upto_space(t);
        let k = upto_space(t) as int;
        let word = t.subrange(0, k);
        let rest = t.subrange(k, t.len() as int);
        words_hold_no_space(rest);
        assert(t =~= word + rest);
        Seq::filter_distributes_over_add(word, rest, keep);
        lemma_filter_all(word, keep);
        assert(words(s) =~= seq![word] + words(rest));
        assert(words(s).drop_first() =~= words(rest));
        assert(words(s).first() == word);
        assert forall|i: int| 0 <= i < words(s).len() implies (#[trigger] words(s)[i]).len()
            > 0 by {
            if i > 0 {
                assert(words(s)[i] == words(rest)[i - 1]);
            }
        }
        assert forall|i: int, j: int|
            0 <= i < words(s).len() && 0 <= j < words(s)[i].len() implies !space(
            #[trigger] words(s)[i][j],
        ) by {
            if i > 0 {
                assert(words(s)[i] == words(rest)[i - 1]);
            }
        }
    }
}

proof fn lemma_filter_none(s: Seq<char>, keep: spec_fn(char) -> bool)
    requires
        forall|k: int| 0 <= k < s.len() ==> !keep(#[trigger] s[k]),
    ensures
        s.filter(keep) == Seq::<char>::empty(),
    decreases s.len(),
{
    reveal(Seq::filter);
    if s.len() > 0 {
        assert forall|k: int| 0 <= k < s.drop_last().len() implies !keep(
            #[trigger] s.drop_last()[k],
        ) by {
            assert(s.drop_last()[k] == s[k]);
        }
        lemma_filter_none(s.drop_last(), keep);
        assert(s.last() == s[s.len() - 1]);
    }
}

proof fn lemma_filter_all(s: Seq<char>, keep: spec_fn(char) -> bool)
    requires
        forall|k: int| 0 <= k < s.len() ==> keep(#[trigger] s[k]),
    ensures
        s.filter(keep) == s,
    decreases s.len(),
{
    reveal(Seq::filter);
    if s.len() > 0 {
        assert forall|k: int| 0 <= k < s.drop_last().len() implies keep(
            #[trigger] s.drop_last()[k],
        ) by {
            assert(s.drop_last()[k] == s[k]);
        }
        lemma_filter_all(s.drop_last(), keep);
        assert(s.last() == s[s.len() - 1]);
        assert(s.drop_last().push(s.last()) =~= s);
    }
}

/// The number that decimal digits spell.
pub open spec fn spelled(digits: Seq<char>) -> nat
    decreases digits.len(),
{
    if digits.len() == 0 {
        0
    } else {
        10 * spelled(digits.drop_last()) + (digits.last() as u32 - '0' as u32) as nat
    }
}

/// A number is written in digits that spell it, without a zero in front.
pub proof fn digits_spell_the_number(n: nat)
    ensures
        spelled(decimal(n)) == n,
        decimal(n).len() > 0,
        forall|i: int| 0 <= i < decimal(n).len() ==> '0' <= #[trigger] decimal(n)[i] <= '9',
        decimal(n).len() > 1 ==> decimal(n)[0] != '0',
    decreases n,
{
    let d = decimal(n);
    if n < 10 {
        assert(d.drop_last() =~= Seq::<char>::empty());
        assert(d.last() == digit(n));
        assert(spelled(d.drop_last()) == 0);
    } else {
        digits_spell_the_number(n / 10);
        assert(d.drop_last() =~= decimal(n / 10));
        assert(d.last() == digit(n % 10));
        assert(10 * (n / 10) + n % 10 == n);
        assert(d[0] == decimal(n / 10)[0]);
        if n / 10 < 10 {
            assert(d[0] == digit(n / 10));
        } else {
            digits_spell_the_number(n / 10 / 10);
            assert(decimal(n / 10).len() > 1);
        }
    }
}

/// Of the characters of ASCII, the blank and the control characters from the tabulator to the
/// carriage return are white space, and no others.
pub proof fn ascii_white_space(c: char)
    requires
        c <= '\u{7f}',
    ensures
        space(c) <==> c == ' ' || c == '\t' || c == '\n' || c == '\u{b}' || c == '\u{c}' || c
            == '\r',
{
}

/// A text in which a pattern does not occur is not changed, and else its first occurrence gives way.
pub proof fn first_occurrence_is_replaced(s: Seq<char>, pat: Seq<char>, to: Seq<char>, k: int)
    requires
        pat.len() > 0,
    ensures
        !contains(s, pat) ==> replaced(s, pat, to) == s,
        occurs_at(s, pat, k) && (forall|i: int| 0 <= i < k ==> !occurs_at(s, pat, i)) ==> replaced(
            s,
            pat,
            to,
        ) == s.subrange(0, k) + to + replaced(
            s.subrange(k + pat.len(), s.len() as int),
            pat,
            to,
        ),
{
    lemma_find_from(s, pat, 0);
}

} // verus!
