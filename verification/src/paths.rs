//! Paths as text: how they are joined, cut and told apart on each operating system.
//!
//! Nothing here looks at a disk. The rules are those by which the standard library of the
//! platform reads a path, so that a path made here means the same to the file functions.
use crate::text;
use crate::text::{
    cat, cat3, chars, count_upto_any, cut, join, keep_filled, last_position, split_at_char,
    string_of,
};
use vstd::prelude::*;

verus! {

/// The operating system that a path belongs to.
#[derive(Clone, Copy, Debug, PartialEq, Eq, Structural)]
pub enum Os {
    Windows,
    MacOs,
    Linux,
}

/// The processor that a program was built for.
#[derive(Clone, Copy, Debug, PartialEq, Eq, Structural)]
pub enum Arch {
    Aarch64,
    X64,
}

/// What a path begins with on Windows, before its root: nothing, a drive, a share or device,
/// or a verbatim prefix, behind which only the backslash separates.
#[derive(Clone, Copy, Debug, PartialEq, Eq, Structural)]
pub enum Prefix {
    Bare,
    Drive,
    Share,
    Verbatim,
}

/// Either slash.
pub open spec fn slash(c: char) -> bool {
    c == '\\' || c == '/'
}

fn is_slash(c: char) -> (r: bool)
    ensures
        r == slash(c),
{
    c == '\\' || c == '/'
}

/// The characters that end a field of a prefix.
pub open spec fn field_stops(verbatim: bool) -> Seq<char> {
    if verbatim {
        seq!['\\']
    } else {
        seq!['\\', '/']
    }
}

/// Where the field that begins at `from` ends.
pub open spec fn field_end(s: Seq<char>, from: int, verbatim: bool) -> int {
    from + text::upto_any(s.subrange(from, s.len() as int), field_stops(verbatim))
}

/// Where two fields end that begin at `from`: a machine and, behind a separator, a share that
/// is not empty.
pub open spec fn share_end(s: Seq<char>, from: int, verbatim: bool) -> int {
    let server = field_end(s, from, verbatim);
    if server < s.len() && field_end(s, server + 1, verbatim) > server + 1 {
        field_end(s, server + 1, verbatim)
    } else {
        server
    }
}

/// Whether a drive letter with its colon stands at `i`.
pub open spec fn drive_at(s: Seq<char>, i: int) -> bool {
    i + 2 <= s.len() && text::latin_letter(s[i]) && s[i + 1] == ':'
}

/// Whether a path begins like a verbatim one.
pub open spec fn verbatim_mark(s: Seq<char>) -> bool {
    s.len() >= 4 && s[0] == '\\' && s[1] == '\\' && s[2] == '?' && s[3] == '\\'
}

/// The length of a path's prefix and its kind, on Windows.
pub open spec fn windows_prefix(s: Seq<char>) -> (int, Prefix) {
    if s.len() >= 2 && slash(s[0]) && slash(s[1]) {
        if verbatim_mark(s) {
            if s.len() >= 8 && s[4] == 'U' && s[5] == 'N' && s[6] == 'C' && slash(s[7]) {
                (share_end(s, 8, true), Prefix::Verbatim)
            } else if drive_at(s, 4) && (s.len() == 6 || slash(s[6])) {
                (6, Prefix::Verbatim)
            } else {
                (field_end(s, 4, true), Prefix::Verbatim)
            }
        } else if s.len() >= 4 && s[2] == '.' && slash(s[3]) {
            (field_end(s, 4, false), Prefix::Share)
        } else {
            let server = field_end(s, 2, false);
            if server > 2 && share_end(s, 2, false) > server {
                (share_end(s, 2, false), Prefix::Share)
            } else {
                (0, Prefix::Bare)
            }
        }
    } else if drive_at(s, 0) {
        (2, Prefix::Drive)
    } else {
        (0, Prefix::Bare)
    }
}

/// The length of a path's prefix and its kind. Only Windows knows prefixes.
pub open spec fn prefix_of(os: Os, s: Seq<char>) -> (int, Prefix) {
    if os == Os::Windows {
        windows_prefix(s)
    } else {
        (0, Prefix::Bare)
    }
}

/// The character that separates the parts of a path that is built here.
pub open spec fn main_separator(os: Os) -> char {
    if os == Os::Windows {
        '\\'
    } else {
        '/'
    }
}

/// Whether a character separates the parts of a path with this kind of prefix.
pub open spec fn separates(os: Os, kind: Prefix, c: char) -> bool {
    c == main_separator(os) || (c == '/' && kind != Prefix::Verbatim)
}

/// Whether a root follows the prefix in the text.
pub open spec fn rooted(os: Os, s: Seq<char>) -> bool {
    let (n, kind) = prefix_of(os, s);
    n < s.len() && separates(os, kind, s[n])
}

/// Whether a path says by itself where it begins.
#[verifier::opaque]
pub open spec fn absolute(os: Os, s: Seq<char>) -> bool {
    let (_, kind) = prefix_of(os, s);
    if os == Os::Windows {
        match kind {
            Prefix::Bare => false,
            Prefix::Drive => rooted(os, s),
            Prefix::Share => true,
            Prefix::Verbatim => true,
        }
    } else {
        rooted(os, s)
    }
}

/// Whether the path begins, behind its prefix, with a part `.` that counts.
pub open spec fn begins_here(os: Os, s: Seq<char>) -> bool {
    let (n, kind) = prefix_of(os, s);
    &&& kind == Prefix::Bare || kind == Prefix::Drive
    &&& n < s.len()
    &&& s[n] == '.'
    &&& n + 1 == s.len() || separates(os, kind, s[n + 1])
}

/// How many characters stand before the parts of a path: its prefix, its root, and a `.` that
/// it begins with.
pub open spec fn body_start(os: Os, s: Seq<char>) -> int {
    let (n, _) = prefix_of(os, s);
    if rooted(os, s) || begins_here(os, s) {
        n + 1
    } else {
        n
    }
}

/// Where the part that ends at `end` begins, not before `start`.
pub open spec fn part_start(os: Os, kind: Prefix, s: Seq<char>, start: int, end: int) -> int
    decreases end - start,
{
    if end <= start || separates(os, kind, s[end - 1]) {
        end
    } else {
        part_start(os, kind, s, start, end - 1)
    }
}

/// Where the last part ends that lies before `end`: separators and parts `.` do not count.
pub open spec fn parts_end(os: Os, kind: Prefix, s: Seq<char>, start: int, end: int) -> int
    decreases end - start,
{
    if end <= start {
        start
    } else if separates(os, kind, s[end - 1]) {
        parts_end(os, kind, s, start, end - 1)
    } else if kind != Prefix::Verbatim && s[end - 1] == '.' && part_start(os, kind, s, start, end)
        == end - 1 {
        parts_end(os, kind, s, start, end - 1)
    } else {
        end
    }
}

/// Where the parts of the whole path end.
pub open spec fn last_end(os: Os, s: Seq<char>) -> int {
    parts_end(os, prefix_of(os, s).1, s, body_start(os, s), s.len() as int)
}

/// Where the last part of the path begins.
pub open spec fn last_start(os: Os, s: Seq<char>) -> int {
    part_start(os, prefix_of(os, s).1, s, body_start(os, s), last_end(os, s))
}

/// The path without its last part. A path that is empty or only a root has none.
#[verifier::opaque]
pub open spec fn parent_of(os: Os, s: Seq<char>) -> Option<Seq<char>> {
    let start = body_start(os, s);
    if last_end(os, s) > start {
        Some(s.subrange(0, parts_end(os, prefix_of(os, s).1, s, start, last_start(os, s))))
    } else if begins_here(os, s) {
        Some(s.subrange(0, start - 1))
    } else {
        None
    }
}

/// The last part of the path, where it is a name.
#[verifier::opaque]
pub open spec fn name_of(os: Os, s: Seq<char>) -> Option<Seq<char>> {
    if last_end(os, s) > body_start(os, s) {
        let name = s.subrange(last_start(os, s), last_end(os, s));
        if name == seq!['.', '.'] || name == seq!['.'] {
            None
        } else {
            Some(name)
        }
    } else {
        None
    }
}

proof fn lemma_part_start(os: Os, kind: Prefix, s: Seq<char>, start: int, end: int)
    requires
        0 <= start <= end,
    ensures
        start <= part_start(os, kind, s, start, end) <= end,
    decreases end - start,
{
    if end > start && !separates(os, kind, s[end - 1]) {
        lemma_part_start(os, kind, s, start, end - 1);
    }
}

proof fn lemma_parts_end(os: Os, kind: Prefix, s: Seq<char>, start: int, end: int)
    requires
        0 <= start <= end <= s.len(),
    ensures
        start <= parts_end(os, kind, s, start, end) <= end,
        parts_end(os, kind, s, start, end) > start ==> part_start(
            os,
            kind,
            s,
            start,
            parts_end(os, kind, s, start, end),
        ) < parts_end(os, kind, s, start, end),
    decreases end - start,
{
    if end <= start {
    } else if separates(os, kind, s[end - 1]) {
        lemma_parts_end(os, kind, s, start, end - 1);
    } else if kind != Prefix::Verbatim && s[end - 1] == '.' && part_start(os, kind, s, start, end)
        == end - 1 {
        lemma_parts_end(os, kind, s, start, end - 1);
    } else {
        lemma_part_start(os, kind, s, start, end - 1);
    }
}

proof fn lemma_upto_any_bound(s: Seq<char>, set: Seq<char>)
    ensures
        text::upto_any(s, set) <= s.len(),
    decreases s.len(),
{
    if s.len() > 0 && !set.contains(s[0]) {
        lemma_upto_any_bound(s.subrange(1, s.len() as int), set);
    }
}

proof fn lemma_prefix(os: Os, s: Seq<char>)
    ensures
        0 <= prefix_of(os, s).0 <= s.len(),
        prefix_of(os, s).0 <= body_start(os, s) <= s.len(),
        begins_here(os, s) ==> body_start(os, s) > 0,
{
    assert forall|from: int, verbatim: bool|
        0 <= from <= s.len() implies from <= #[trigger] field_end(s, from, verbatim) <= s.len() by {
        lemma_upto_any_bound(s.subrange(from, s.len() as int), field_stops(verbatim));
    }
}

/// A path that has a parent is longer than it.
pub proof fn parent_is_shorter(os: Os, s: Seq<char>)
    ensures
        parent_of(os, s) matches Some(p) ==> p.len() < s.len() && p == s.subrange(
            0,
            p.len() as int,
        ),
{
    reveal(parent_of);
    lemma_prefix(os, s);
    let kind = prefix_of(os, s).1;
    let start = body_start(os, s);
    lemma_parts_end(os, kind, s, start, s.len() as int);
    if last_end(os, s) > start {
        lemma_part_start(os, kind, s, start, last_end(os, s));
        lemma_parts_end(os, kind, s, start, last_start(os, s));
    }
}

fn scan_field(s: &[char], from: usize, verbatim: bool) -> (r: usize)
    requires
        from <= s@.len(),
    ensures
        r == field_end(s@, from as int, verbatim),
        from <= r <= s@.len(),
{
    let stops: Vec<char> = if verbatim {
        vec!['\\']
    } else {
        vec!['\\', '/']
    };
    assert(stops@ =~= field_stops(verbatim));
    let rest = cut(s, from, s.len());
    let k: usize = count_upto_any(rest, stops.as_slice());
    from + k
}

fn scan_share(s: &[char], from: usize, verbatim: bool) -> (r: usize)
    requires
        from <= s@.len(),
    ensures
        r == share_end(s@, from as int, verbatim),
        from <= r <= s@.len(),
{
    let server: usize = scan_field(s, from, verbatim);
    if server < s.len() {
        let share: usize = scan_field(s, server + 1, verbatim);
        if share > server + 1 {
            return share;
        }
    }
    server
}

fn is_drive_at(s: &[char], i: usize) -> (r: bool)
    ensures
        r == drive_at(s@, i as int),
{
    i < s.len() && s.len() - i >= 2 && (('a' <= s[i] && s[i] <= 'z') || ('A' <= s[i] && s[i]
        <= 'Z')) && s[i + 1] == ':'
}

fn scan_prefix(os: Os, s: &[char]) -> (r: (usize, Prefix))
    ensures
        r.0 == prefix_of(os, s@).0,
        r.1 == prefix_of(os, s@).1,
        r.0 <= s@.len(),
{
    if os != Os::Windows {
        return (0, Prefix::Bare);
    }
    let n: usize = s.len();
    if n >= 2 && is_slash(s[0]) && is_slash(s[1]) {
        if n >= 4 && s[0] == '\\' && s[1] == '\\' && s[2] == '?' && s[3] == '\\' {
            if n >= 8 && s[4] == 'U' && s[5] == 'N' && s[6] == 'C' && is_slash(s[7]) {
                (scan_share(s, 8, true), Prefix::Verbatim)
            } else if is_drive_at(s, 4) && (n == 6 || is_slash(s[6])) {
                (6, Prefix::Verbatim)
            } else {
                (scan_field(s, 4, true), Prefix::Verbatim)
            }
        } else if n >= 4 && s[2] == '.' && is_slash(s[3]) {
            (scan_field(s, 4, false), Prefix::Share)
        } else {
            let server: usize = scan_field(s, 2, false);
            let share: usize = scan_share(s, 2, false);
            if server > 2 && share > server {
                (share, Prefix::Share)
            } else {
                (0, Prefix::Bare)
            }
        }
    } else if is_drive_at(s, 0) {
        (2, Prefix::Drive)
    } else {
        (0, Prefix::Bare)
    }
}

fn is_separator(os: Os, kind: Prefix, c: char) -> (r: bool)
    ensures
        r == separates(os, kind, c),
{
    let main: char = if os == Os::Windows {
        '\\'
    } else {
        '/'
    };
    c == main || (c == '/' && kind != Prefix::Verbatim)
}

fn is_rooted(os: Os, s: &[char]) -> (r: bool)
    ensures
        r == rooted(os, s@),
{
    let (n, kind) = scan_prefix(os, s);
    n < s.len() && is_separator(os, kind, s[n])
}

/// Whether a path says by itself where it begins.
pub fn is_absolute(os: Os, path: &str) -> (r: bool)
    ensures
        r == absolute(os, path@),
{
    reveal(absolute);
    let s = chars(path);
    let (_, kind) = scan_prefix(os, s.as_slice());
    if os == Os::Windows {
        match kind {
            Prefix::Bare => false,
            Prefix::Drive => is_rooted(os, s.as_slice()),
            Prefix::Share => true,
            Prefix::Verbatim => true,
        }
    } else {
        is_rooted(os, s.as_slice())
    }
}

fn is_here(os: Os, s: &[char]) -> (r: bool)
    ensures
        r == begins_here(os, s@),
{
    let (n, kind) = scan_prefix(os, s);
    (kind == Prefix::Bare || kind == Prefix::Drive) && n < s.len() && s[n] == '.' && (n + 1
        == s.len() || is_separator(os, kind, s[n + 1]))
}

fn scan_start(os: Os, s: &[char]) -> (r: usize)
    ensures
        r == body_start(os, s@),
        r <= s@.len(),
{
    let (n, _) = scan_prefix(os, s);
    let total: usize = s.len();
    if n < total && (is_rooted(os, s) || is_here(os, s)) {
        n + 1
    } else {
        n
    }
}

fn scan_part(os: Os, kind: Prefix, s: &[char], start: usize, end: usize) -> (r: usize)
    requires
        start <= end <= s@.len(),
    ensures
        r == part_start(os, kind, s@, start as int, end as int),
        start <= r <= end,
    decreases end - start,
{
    if end <= start || is_separator(os, kind, s[end - 1]) {
        end
    } else {
        scan_part(os, kind, s, start, end - 1)
    }
}

fn scan_end(os: Os, kind: Prefix, s: &[char], start: usize, end: usize) -> (r: usize)
    requires
        start <= end <= s@.len(),
    ensures
        r == parts_end(os, kind, s@, start as int, end as int),
        start <= r <= end,
    decreases end - start,
{
    if end <= start {
        start
    } else if is_separator(os, kind, s[end - 1]) {
        scan_end(os, kind, s, start, end - 1)
    } else if kind != Prefix::Verbatim && s[end - 1] == '.' && scan_part(os, kind, s, start, end)
        == end - 1 {
        scan_end(os, kind, s, start, end - 1)
    } else {
        end
    }
}

/// The path without its last part.
pub fn parent(os: Os, path: &str) -> (r: Option<String>)
    ensures
        text::opt(r) == parent_of(os, path@),
        r matches Some(p) ==> p@.len() < path@.len(),
{
    let s = chars(path);
    let (_, kind) = scan_prefix(os, s.as_slice());
    let start: usize = scan_start(os, s.as_slice());
    let end: usize = scan_end(os, kind, s.as_slice(), start, s.len());
    proof {
        reveal(parent_of);
        parent_is_shorter(os, path@);
        lemma_prefix(os, path@);
    }
    if end > start {
        let from: usize = scan_part(os, kind, s.as_slice(), start, end);
        let upto: usize = scan_end(os, kind, s.as_slice(), start, from);
        Some(string_of(cut(s.as_slice(), 0, upto)))
    } else if is_here(os, s.as_slice()) {
        Some(string_of(cut(s.as_slice(), 0, start - 1)))
    } else {
        None
    }
}

/// The last part of the path, where it is a name.
pub fn file_name(os: Os, path: &str) -> (r: Option<String>)
    ensures
        text::opt(r) == name_of(os, path@),
{
    reveal(name_of);
    let s = chars(path);
    let (_, kind) = scan_prefix(os, s.as_slice());
    let start: usize = scan_start(os, s.as_slice());
    let end: usize = scan_end(os, kind, s.as_slice(), start, s.len());
    if end > start {
        let from: usize = scan_part(os, kind, s.as_slice(), start, end);
        let name = cut(s.as_slice(), from, end);
        let here = name.len() == 1 && name[0] == '.';
        let up = name.len() == 2 && name[0] == '.' && name[1] == '.';
        assert(here == (name@ =~= seq!['.']));
        assert(up == (name@ =~= seq!['.', '.']));
        if here || up {
            None
        } else {
            Some(string_of(name))
        }
    } else {
        None
    }
}

/// A text with each slash turned into a backslash.
pub open spec fn backslashed(s: Seq<char>) -> Seq<char> {
    Seq::new(
        s.len(),
        |i: int|
            if s[i] == '/' {
                '\\'
            } else {
                s[i]
            },
    )
}

/// Whether a part of a path is a name: neither `.` nor `..`.
pub open spec fn is_name(part: Seq<char>) -> bool {
    part != seq!['.'] && part != seq!['.', '.']
}

/// Where one gets from a place by following the parts of a relative path: `..` leaves a name
/// again, and `.` stays.
pub open spec fn walked(place: Seq<Seq<char>>, parts: Seq<Seq<char>>) -> Seq<Seq<char>>
    decreases parts.len(),
{
    if parts.len() == 0 {
        place
    } else {
        let before = walked(place, parts.drop_last());
        let part = parts.last();
        if part.len() == 0 || part == seq!['.'] {
            before
        } else if part == seq!['.', '.'] {
            if before.len() > 0 && is_name(before.last()) {
                before.drop_last()
            } else {
                before
            }
        } else {
            before.push(part)
        }
    }
}

/// A verbatim path followed by a relative one. Verbatim paths are taken as they stand, so what
/// is joined to one is resolved first.
pub open spec fn verbatim_joined(base: Seq<char>, rel: Seq<char>) -> Seq<char> {
    let n = windows_prefix(base).0;
    let from_root = rel.len() > 0 && slash(rel[0]);
    let place = if from_root {
        Seq::empty()
    } else {
        text::filled(text::split(base.subrange(n, base.len() as int), '\\'))
    };
    let names = walked(place, text::split(backslashed(rel), '\\'));
    if names.len() > 0 {
        base.subrange(0, n) + seq!['\\'] + text::joined(names, seq!['\\'])
    } else if from_root || rooted(Os::Windows, base) {
        base.subrange(0, n) + seq!['\\']
    } else {
        base.subrange(0, n)
    }
}

/// One path followed by another. Where the other begins at a root of its own, it stands for
/// itself.
#[verifier::opaque]
pub open spec fn joined_path(os: Os, base: Seq<char>, rel: Seq<char>) -> Seq<char> {
    let (n, kind) = prefix_of(os, base);
    if prefix_of(os, rel).1 != Prefix::Bare {
        rel
    } else if kind == Prefix::Verbatim && rel.len() > 0 {
        verbatim_joined(base, rel)
    } else if rooted(os, rel) {
        base.subrange(0, n) + rel
    } else if base.len() == 0 || separates(os, Prefix::Bare, base.last()) || (kind == Prefix::Drive
        && n == base.len()) {
        base + rel
    } else {
        base + seq![main_separator(os)] + rel
    }
}

fn backslash(s: &[char]) -> (r: Vec<char>)
    ensures
        r@ == backslashed(s@),
{
    let mut out: Vec<char> = Vec::new();
    for i in 0..s.len()
        invariant
            out@ == backslashed(s@).subrange(0, i as int),
    {
        out.push(
            if s[i] == '/' {
                '\\'
            } else {
                s[i]
            },
        );
        assert(out@ =~= backslashed(s@).subrange(0, i + 1));
    }
    assert(backslashed(s@).subrange(0, s@.len() as int) =~= backslashed(s@));
    out
}

fn one_dot(s: &[char]) -> (r: bool)
    ensures
        r == (s@ == seq!['.']),
{
    let r = s.len() == 1 && s[0] == '.';
    assert(r == (s@ =~= seq!['.']));
    r
}

fn two_dots(s: &[char]) -> (r: bool)
    ensures
        r == (s@ == seq!['.', '.']),
{
    let r = s.len() == 2 && s[0] == '.' && s[1] == '.';
    assert(r == (s@ =~= seq!['.', '.']));
    r
}

fn walk(place: Vec<String>, parts: &[Vec<char>]) -> (r: Vec<String>)
    ensures
        text::strs(r@) == walked(text::strs(place@), text::char_vecs(parts@)),
{
    let ghost start = text::strs(place@);
    let ghost all = text::char_vecs(parts@);
    let mut out: Vec<String> = place;
    for i in 0..parts.len()
        invariant
            all == text::char_vecs(parts@),
            text::strs(out@) == walked(start, all.subrange(0, i as int)),
    {
        assert(all.subrange(0, i + 1).drop_last() =~= all.subrange(0, i as int));
        assert(all.subrange(0, i + 1).last() == parts@[i as int]@);
        let ghost before = out@;
        let part = parts[i].as_slice();
        if part.len() == 0 || one_dot(part) {
        } else if two_dots(part) {
            if out.len() > 0 {
                let last = chars(out[out.len() - 1].as_str());
                assert(text::strs(before).last() == last@);
                if !one_dot(last.as_slice()) && !two_dots(last.as_slice()) {
                    out.pop();
                    assert(text::strs(out@) =~= text::strs(before).drop_last());
                }
            }
        } else {
            out.push(string_of(part));
            assert(text::strs(out@) =~= text::strs(before).push(part@));
        }
    }
    assert(all.subrange(0, all.len() as int) =~= all);
    out
}

fn join_verbatim(base: &[char], rel: &[char]) -> (r: String)
    ensures
        r@ == verbatim_joined(base@, rel@),
{
    let (n, _) = scan_prefix(Os::Windows, base);
    let head = string_of(cut(base, 0, n));
    let from_root = rel.len() > 0 && is_slash(rel[0]);
    let place: Vec<String> = if from_root {
        Vec::new()
    } else {
        let pieces = split_at_char(cut(base, n, base.len()), '\\');
        keep_filled(pieces.as_slice())
    };
    let ghost from = if from_root {
        Seq::<Seq<char>>::empty()
    } else {
        text::filled(text::split(base@.subrange(n as int, base@.len() as int), '\\'))
    };
    assert(text::strs(place@) =~= from);
    let turned = backslash(rel);
    let pieces = split_at_char(turned.as_slice(), '\\');
    let names = walk(place, pieces.as_slice());
    proof {
        reveal_strlit("\\");
        assert("\\"@ =~= seq!['\\']);
    }
    assert(text::strs(names@).len() == names@.len());
    if names.len() > 0 {
        let body = join(names.as_slice(), "\\");
        cat3(head.as_str(), "\\", body.as_str())
    } else if from_root || is_rooted(Os::Windows, base) {
        cat(head.as_str(), "\\")
    } else {
        head
    }
}

/// One path followed by another.
pub fn join_path(os: Os, base: &str, rel: &str) -> (r: String)
    ensures
        r@ == joined_path(os, base@, rel@),
{
    reveal(joined_path);
    let b = chars(base);
    let l = chars(rel);
    let (n, kind) = scan_prefix(os, b.as_slice());
    let (_, rel_kind) = scan_prefix(os, l.as_slice());
    proof {
        reveal_strlit("\\");
        reveal_strlit("/");
        assert("\\"@ =~= seq!['\\']);
        assert("/"@ =~= seq!['/']);
    }
    if rel_kind != Prefix::Bare {
        rel.to_owned()
    } else if kind == Prefix::Verbatim && l.len() > 0 {
        join_verbatim(b.as_slice(), l.as_slice())
    } else if is_rooted(os, l.as_slice()) {
        cat(string_of(cut(b.as_slice(), 0, n)).as_str(), rel)
    } else if b.len() == 0 || is_separator(os, Prefix::Bare, b[b.len() - 1]) || (kind
        == Prefix::Drive && n == b.len()) {
        cat(base, rel)
    } else if os == Os::Windows {
        cat3(base, "\\", rel)
    } else {
        cat3(base, "/", rel)
    }
}

/// How much of a name stands before its extension. A dot that begins a name begins no
/// extension.
pub open spec fn stem_len(name: Seq<char>) -> int {
    match text::rfind(name, seq!['.']) {
        Some(i) if i > 0 => i,
        _ => name.len() as int,
    }
}

/// The path with another extension on its name.
pub open spec fn with_extension_of(os: Os, s: Seq<char>, ext: Seq<char>) -> Seq<char> {
    match name_of(os, s) {
        Some(name) => s.subrange(0, last_start(os, s) + stem_len(name)) + seq!['.'] + ext,
        None => s,
    }
}

/// The path with another extension, which is not empty, on its name.
pub fn with_extension(os: Os, path: &str, ext: &str) -> (r: String)
    requires
        ext@.len() > 0,
    ensures
        r@ == with_extension_of(os, path@, ext@),
{
    reveal(name_of);
    let s = chars(path);
    match file_name(os, path) {
        None => path.to_owned(),
        Some(name) => {
            let n = chars(name.as_str());
            let (_, kind) = scan_prefix(os, s.as_slice());
            let start: usize = scan_start(os, s.as_slice());
            let end: usize = scan_end(os, kind, s.as_slice(), start, s.len());
            let from: usize = scan_part(os, kind, s.as_slice(), start, end);
            let dot: Vec<char> = vec!['.'];
            assert(dot@ =~= seq!['.']);
            assert(n@.len() == end - from);
            let keep: usize = match last_position(n.as_slice(), dot.as_slice()) {
                Some(i) if i > 0 => i,
                _ => n.len(),
            };
            proof {
                text::lemma_rfind_to(n@, dot@, n@.len() - 1);
                reveal_strlit(".");
                assert("."@ =~= seq!['.']);
            }
            let stem = string_of(cut(s.as_slice(), 0, from + keep));
            cat3(stem.as_str(), ".", ext)
        },
    }
}

/// The path as other programs take it. On Windows the mark of a verbatim path is left off.
pub open spec fn plain_path(os: Os, s: Seq<char>) -> Seq<char> {
    if os == Os::Windows && (s.len() >= 4 && s.subrange(0, 4) == seq!['\\', '\\', '?', '\\']
        || s.len() >= 4 && s.subrange(0, 4) == seq!['\\', '?', '?', '\\']) {
        s.subrange(4, s.len() as int)
    } else {
        s
    }
}

/// The path as node and other programs take it, without the mark of a verbatim path.
pub fn normalize_for_node(os: Os, path: &str) -> (r: String)
    ensures
        r@ == plain_path(os, path@),
{
    let s = chars(path);
    if os != Os::Windows || s.len() < 4 {
        return path.to_owned();
    }
    let head = cut(s.as_slice(), 0, 4);
    let verbatim = head[0] == '\\' && head[1] == '\\' && head[2] == '?' && head[3] == '\\';
    let nt = head[0] == '\\' && head[1] == '?' && head[2] == '?' && head[3] == '\\';
    assert(verbatim == (head@ =~= seq!['\\', '\\', '?', '\\']));
    assert(nt == (head@ =~= seq!['\\', '?', '?', '\\']));
    if verbatim || nt {
        string_of(cut(s.as_slice(), 4, s.len()))
    } else {
        path.to_owned()
    }
}

/// Outside Windows, a relative path is put behind another with a slash between them, and an absolute
/// one stands for itself.
pub proof fn unix_paths_are_joined_with_a_slash(os: Os, base: &str, rel: &str, r: String)
    requires
        os != Os::Windows,
        call_ensures(join_path, (os, base, rel), r),
    ensures
        rel@.len() > 0 && rel@[0] == '/' ==> r@ == rel@,
        (rel@.len() == 0 || rel@[0] != '/') && base@.len() > 0 && base@.last() != '/' ==> r@ == base@
            + seq!['/'] + rel@,
        (rel@.len() == 0 || rel@[0] != '/') && (base@.len() == 0 || base@.last() == '/') ==> r@
            == base@ + rel@,
        forall|p: &str, a: bool| #[trigger]
            call_ensures(is_absolute, (os, p), a) ==> (a <==> p@.len() > 0 && p@[0] == '/'),
{
    reveal(joined_path);
    reveal(absolute);
    if rel@.len() > 0 && rel@[0] == '/' {
        assert(base@.subrange(0, 0) + rel@ =~= rel@);
    }
}

/// On Windows a name is put behind a path on a drive with a backslash between them.
pub proof fn windows_paths_are_joined_with_a_backslash(base: &str, rel: &str, r: String)
    requires
        call_ensures(join_path, (Os::Windows, base, rel), r),
        base@.len() > 3,
        text::latin_letter(base@[0]),
        base@[1] == ':',
        base@[2] == '\\',
        base@.last() != '\\',
        base@.last() != '/',
        rel@.len() > 0,
        rel@[0] != '\\',
        rel@[0] != '/',
        rel@.len() < 2 || rel@[1] != ':',
    ensures
        r@ == base@ + seq!['\\'] + rel@,
{
    reveal(joined_path);
}

proof fn lemma_unix_part(os: Os, s: Seq<char>, start: int, cutoff: int, end: int)
    requires
        os != Os::Windows,
        0 <= start <= cutoff <= end <= s.len(),
        cutoff == start || s[cutoff - 1] == '/',
        forall|i: int| cutoff <= i < end ==> #[trigger] s[i] != '/',
    ensures
        part_start(os, Prefix::Bare, s, start, end) == cutoff,
    decreases end - start,
{
    if end > cutoff {
        assert(s[end - 1] != '/');
        lemma_unix_part(os, s, start, cutoff, end - 1);
    }
}

proof fn lemma_unix_parts(os: Os, dir: Seq<char>, name: Seq<char>)
    requires
        os != Os::Windows,
        dir.len() > 0,
        dir.last() != '/',
        dir.last() != '.',
        name.len() > 0,
        !name.contains('/'),
        name.last() != '.',
    ensures
        ({
            let s = dir + seq!['/'] + name;
            &&& last_end(os, s) == s.len()
            &&& last_start(os, s) == dir.len() + 1
            &&& body_start(os, s) < dir.len()
            &&& parts_end(
                os,
                Prefix::Bare,
                s,
                body_start(os, s),
                (dir.len() + 1) as int,
            ) == dir.len()
        }),
{
    let s = dir + seq!['/'] + name;
    let start = body_start(os, s);
    let n = s.len() as int;
    let cutoff = (dir.len() + 1) as int;
    assert(s[0] == dir[0]);
    assert(s[dir.len() as int] == '/');
    assert(s[dir.len() - 1] == dir.last());
    assert(start <= 1);
    assert(dir.len() == 1 ==> start == 0);
    assert(s[n - 1] == name.last());
    assert(name.contains(name.last())) by {
        assert(name[name.len() - 1] == name.last());
    }
    assert forall|i: int| cutoff <= i < n implies #[trigger] s[i] != '/' by {
        assert(s[i] == name[i - cutoff]);
        assert(name.contains(name[i - cutoff]));
    }
    lemma_unix_part(os, s, start, cutoff, n);
    reveal_with_fuel(parts_end, 3);
}

/// Outside Windows, the parent of a path is what stands before its last slash, and its name what
/// stands behind it.
pub proof fn unix_path_has_its_parent_and_name(os: Os, dir: Seq<char>, name: Seq<char>)
    requires
        os != Os::Windows,
        dir.len() > 0,
        dir.last() != '/',
        dir.last() != '.',
        name.len() > 0,
        !name.contains('/'),
        name.last() != '.',
    ensures
        parent_of(os, dir + seq!['/'] + name) == Some(dir),
        name_of(os, dir + seq!['/'] + name) == Some(name),
{
    let s = dir + seq!['/'] + name;
    reveal(parent_of);
    reveal(name_of);
    lemma_unix_parts(os, dir, name);
    assert(s.subrange(0, dir.len() as int) =~= dir);
    assert(s.subrange((dir.len() + 1) as int, s.len() as int) =~= name);
    assert(seq!['.', '.'].last() == '.');
    assert(seq!['.'].last() == '.');
}

/// Outside Windows, another extension takes the place of the one that a file has.
pub proof fn unix_extension_is_replaced(
    os: Os,
    dir: Seq<char>,
    stem: Seq<char>,
    former: Seq<char>,
    ext: Seq<char>,
)
    requires
        os != Os::Windows,
        dir.len() > 0,
        dir.last() != '/',
        dir.last() != '.',
        stem.len() > 0,
        !stem.contains('/'),
        former.len() > 0,
        !former.contains('/'),
        !former.contains('.'),
    ensures
        with_extension_of(os, dir + seq!['/'] + (stem + seq!['.'] + former), ext) == dir + seq![
            '/',
        ] + (stem + seq!['.'] + ext),
{
    let name = stem + seq!['.'] + former;
    let s = dir + seq!['/'] + name;
    assert(former.contains(former[former.len() - 1]));
    assert(name.last() == former.last());
    assert(!name.contains('/')) by {
        if name.contains('/') {
            let i = choose|i: int| 0 <= i < name.len() && name[i] == '/';
            if i < stem.len() {
                assert(stem.contains(stem[i]));
            } else if i > stem.len() {
                assert(name[i] == former[i - stem.len() - 1]);
                assert(former.contains(former[i - stem.len() - 1]));
            }
        }
    }
    unix_path_has_its_parent_and_name(os, dir, name);
    lemma_unix_parts(os, dir, name);
    let dot = seq!['.'];
    assert(text::occurs_at(name, dot, stem.len() as int)) by {
        assert(name.subrange(stem.len() as int, (stem.len() + 1) as int) =~= dot);
    }
    text::lemma_rfind_to(name, dot, name.len() - 1);
    let k = text::rfind(name, dot);
    assert(k is Some);
    assert(k->0 == stem.len()) by {
        if k->0 > stem.len() {
            assert(name.subrange(k->0, k->0 + 1)[0int] == '.');
            assert(name[k->0] == former[k->0 - stem.len() - 1]);
            assert(former.contains(former[k->0 - stem.len() - 1]));
        }
    }
    assert(s.subrange(0, (dir.len() + 1) as int + stem.len()) =~= dir + seq!['/'] + stem);
    assert(with_extension_of(os, s, ext) =~= dir + seq!['/'] + (stem + seq!['.'] + ext));
}

/// The path that node gets is the path, without the mark that Windows puts before long ones.
pub proof fn node_gets_the_plain_path(os: Os, path: &str, r: String)
    requires
        call_ensures(normalize_for_node, (os, path), r),
    ensures
        os != Os::Windows ==> r@ == path@,
        os == Os::Windows && path@.len() >= 4 && path@[0] == '\\' && path@[1] == '\\' && path@[2] == '?'
            && path@[3] == '\\' ==> r@ == path@.subrange(4, path@.len() as int),
        path@.len() == 0 || path@[0] != '\\' ==> r@ == path@,
{
    if path@.len() >= 4 {
        let head = path@.subrange(0, 4);
        assert(head[0] == path@[0] && head[1] == path@[1] && head[2] == path@[2] && head[3]
            == path@[3]);
        if path@[0] == '\\' && path@[1] == '\\' && path@[2] == '?' && path@[3] == '\\' {
            assert(head =~= seq!['\\', '\\', '?', '\\']);
        }
    }
}

/// The functions on paths are those that the other laws speak of.
pub proof fn path_functions_go_by_the_laws(
    os: Os,
    path: &str,
    ext: &str,
    up: Option<String>,
    name: Option<String>,
    other: String,
)
    requires
        call_ensures(parent, (os, path), up),
        call_ensures(file_name, (os, path), name),
        call_ensures(with_extension, (os, path, ext), other),
    ensures
        text::opt(up) == parent_of(os, path@),
        text::opt(name) == name_of(os, path@),
        other@ == with_extension_of(os, path@, ext@),
{
}

} // verus!
