//! What the service process prints: a bounded capture of its output, the address that it
//! announces, and what kind of failure the output tells of.
use crate::text;
use crate::text::{
    cat, chars, count_upto, count_upto_any, count_upto_space, cut, cut_both, cut_end_set, ends,
    from_utf8_lossy, holds, in_list, number, position, split_lines, split_words, stands_at,
    string_of,
};
use vstd::prelude::*;

verus! {

/// Why the service did not come up, as far as its output tells.
#[derive(Debug, Clone, PartialEq, Eq)]
pub enum FailureKind {
    PluginTree,
    StaleLock { lock_path: Option<String> },
    Unknown,
}

/// A failure kind with its path as characters.
pub enum FailureView {
    PluginTree,
    StaleLock { lock_path: Option<Seq<char>> },
    Unknown,
}

impl View for FailureKind {
    type V = FailureView;

    open spec fn view(&self) -> FailureView {
        match self {
            FailureKind::PluginTree => FailureView::PluginTree,
            FailureKind::StaleLock { lock_path } => FailureView::StaleLock {
                lock_path: text::opt(*lock_path),
            },
            FailureKind::Unknown => FailureView::Unknown,
        }
    }
}

impl FailureKind {
    /// The name under which the front end knows the kind.
    pub fn kind_str(&self) -> (r: &'static str)
        ensures
            r@ == match self@ {
                FailureView::PluginTree => "plugins"@,
                FailureView::StaleLock { .. } => "stale-lock"@,
                FailureView::Unknown => "unknown"@,
            },
    {
        match self {
            FailureKind::PluginTree => "plugins",
            FailureKind::StaleLock { .. } => "stale-lock",
            FailureKind::Unknown => "unknown",
        }
    }
}

/// How many bytes of output are kept where nothing else is asked for.
pub const DEFAULT_LIMIT: usize = 128 * 1024;

/// The last `limit` items of a sequence: all of it where it is no longer than that.
pub open spec fn last_of<T>(s: Seq<T>, limit: nat) -> Seq<T> {
    if s.len() <= limit {
        s
    } else {
        s.subrange(s.len() - limit, s.len() as int)
    }
}

/// The tail of what a process has printed, in at most `limit` bytes.
pub struct ServiceCapture {
    buf: Vec<u8>,
    limit: usize,
}

impl ServiceCapture {
    #[verifier::type_invariant]
    spec fn bounded(self) -> bool {
        self.buf@.len() <= self.limit
    }

    /// The bytes that are held.
    pub closed spec fn bytes(self) -> Seq<u8> {
        self.buf@
    }

    /// How many bytes are held at most.
    pub closed spec fn limit(self) -> nat {
        self.limit as nat
    }

    /// An empty capture.
    pub fn new(limit: usize) -> (r: Self)
        ensures
            r.bytes() == Seq::<u8>::empty(),
            r.limit() == limit,
    {
        ServiceCapture { buf: Vec::new(), limit }
    }

    /// Takes in what was printed next. Of all that was printed so far the last bytes stay, as
    /// many as the limit allows.
    pub fn push_bytes(&mut self, chunk: &[u8])
        ensures
            final(self).bytes() == last_of(old(self).bytes() + chunk@, old(self).limit()),
            final(self).bytes().len() <= old(self).limit(),
            final(self).limit() == old(self).limit(),
    {
        proof {
            use_type_invariant(&*self);
        }
        if self.limit == 0 {
            assert(self.buf@ =~= last_of(self.buf@ + chunk@, 0));
            return;
        }
        let ghost before = self.buf@;
        let limit = self.limit;
        let mut all: Vec<u8> = Vec::new();
        let drop_chunk: usize = if chunk.len() > limit {
            chunk.len() - limit
        } else {
            0
        };
        let room: usize = limit - (chunk.len() - drop_chunk);
        let drop_held: usize = if self.buf.len() > room {
            self.buf.len() - room
        } else {
            0
        };
        let mut i: usize = drop_held;
        while i < self.buf.len()
            invariant
                drop_held <= i <= self.buf@.len(),
                self.buf@ == before,
                all@ == before.subrange(drop_held as int, i as int),
            decreases before.len() - i,
        {
            all.push(self.buf[i]);
            i = i + 1;
        }
        let ghost kept = all@;
        let mut j: usize = drop_chunk;
        while j < chunk.len()
            invariant
                drop_chunk <= j <= chunk@.len(),
                all@ == kept + chunk@.subrange(drop_chunk as int, j as int),
            decreases chunk@.len() - j,
        {
            all.push(chunk[j]);
            assert(all@ =~= kept + chunk@.subrange(drop_chunk as int, j + 1));
            j = j + 1;
        }
        assert(all@ =~= last_of(before + chunk@, limit as nat));
        self.buf = all;
    }

    /// What is held, as text.
    pub fn text(&self) -> (r: String)
        ensures
            r@ == text::utf8_lossy(self.bytes()),
            vstd::utf8::valid_utf8(self.bytes()) ==> r@ == vstd::utf8::decode_utf8(self.bytes()),
    {
        from_utf8_lossy(self.buf.as_slice())
    }

    /// The address announced for the port. Port 0 stands for no port.
    pub fn captured_url(&self, port: u16) -> (r: Option<String>)
        ensures
            text::opt(r) == (if port == 0 {
                None
            } else {
                announced_url(text::utf8_lossy(self.bytes()), port as nat)
            }),
    {
        if port == 0 {
            return None;
        }
        let text = self.text();
        extract_url(text.as_str(), port)
    }

    /// What kind of failure the output tells of.
    pub fn classify(&self) -> (r: FailureKind)
        ensures
            r@ == kind_of(text::utf8_lossy(self.bytes())),
    {
        let text = self.text();
        classify(text.as_str())
    }
}

/// Where the chunks of an output are cut does not matter: to take in two chunks is to take in
/// both as one.
pub proof fn capture_ignores_chunk_borders(held: Seq<u8>, a: Seq<u8>, b: Seq<u8>, limit: nat)
    ensures
        last_of(last_of(held + a, limit) + b, limit) == last_of(held + (a + b), limit),
{
    assert(last_of(last_of(held + a, limit) + b, limit) =~= last_of(held + (a + b), limit));
}

/// The address of the service on a port, with nothing behind it.
pub open spec fn service_base(port: nat) -> Seq<char> {
    "http://127.0.0.1:"@ + text::decimal(port)
}

/// Punctuation that ends the sentence around an address and is not part of it.
pub open spec fn closing_punctuation() -> Seq<char> {
    seq![')', ',', ';', '"', '\'', '。', ']', '}']
}

/// What follows the address that begins at `p`: up to white space, without closing
/// punctuation.
pub open spec fn url_tail(text: Seq<char>, base: Seq<char>, p: int) -> Seq<char> {
    let after = text.subrange(p + base.len(), text.len() as int);
    text::strip_end(after.subrange(0, text::upto_space(after) as int), closing_punctuation())
}

/// Whether an address of the port begins at `p`: what follows the port is nothing, a path or a
/// query.
pub open spec fn url_at(text: Seq<char>, base: Seq<char>, p: int) -> bool {
    &&& text::occurs_at(text, base, p)
    &&& {
        let tail = url_tail(text, base, p);
        tail.len() == 0 || tail[0] == '/' || tail[0] == '?'
    }
}

/// The last address of a port that begins at `last` or before it.
pub open spec fn last_url(text: Seq<char>, base: Seq<char>, last: int) -> Option<Seq<char>>
    decreases last + 1,
{
    if last < 0 {
        None
    } else if url_at(text, base, last) {
        Some(base + url_tail(text, base, last))
    } else {
        last_url(text, base, last - 1)
    }
}

/// The address that a text announces for a port: the last one in it.
pub open spec fn announced_url(text: Seq<char>, port: nat) -> Option<Seq<char>> {
    last_url(text, service_base(port), text.len() as int)
}

proof fn lemma_last_url(text: Seq<char>, base: Seq<char>, last: int)
    ensures
        last_url(text, base, last) is None <==> forall|p: int|
            0 <= p <= last ==> !#[trigger] url_at(text, base, p),
        last_url(text, base, last) matches Some(u) ==> exists|p: int|
            {
                &&& 0 <= p <= last
                &&& #[trigger] url_at(text, base, p)
                &&& u == base + url_tail(text, base, p)
                &&& forall|q: int| p < q <= last ==> !#[trigger] url_at(text, base, q)
            },
    decreases last + 1,
{
    if last >= 0 && !url_at(text, base, last) {
        lemma_last_url(text, base, last - 1);
        if let Some(u) = last_url(text, base, last) {
            let p = choose|p: int|
                {
                    &&& 0 <= p <= last - 1
                    &&& #[trigger] url_at(text, base, p)
                    &&& u == base + url_tail(text, base, p)
                    &&& forall|q: int| p < q <= last - 1 ==> !#[trigger] url_at(text, base, q)
                };
            assert(url_at(text, base, p));
        }
    }
}

/// Of all addresses of the port in a text, the last one is announced; none is announced just
/// where there is none.
pub proof fn last_address_wins(text: Seq<char>, port: nat)
    ensures
        announced_url(text, port) is None <==> forall|p: int|
            0 <= p <= text.len() ==> !#[trigger] url_at(text, service_base(port), p),
        announced_url(text, port) matches Some(u) ==> exists|p: int|
            {
                &&& 0 <= p <= text.len()
                &&& #[trigger] url_at(text, service_base(port), p)
                &&& u == service_base(port) + url_tail(text, service_base(port), p)
                &&& forall|q: int|
                    p < q <= text.len() ==> !#[trigger] url_at(text, service_base(port), q)
            },
{
    lemma_last_url(text, service_base(port), text.len() as int);
}

/// The address that a text announces for a port.
pub fn extract_url(text: &str, port: u16) -> (r: Option<String>)
    ensures
        text::opt(r) == announced_url(text@, port as nat),
{
    let s = chars(text);
    let base = cat("http://127.0.0.1:", number(port as u64).as_str());
    let b = chars(base.as_str());
    assert(b@ == service_base(port as nat));
    let punct: Vec<char> = vec![')', ',', ';', '"', '\'', '。', ']', '}'];
    assert(punct@ =~= closing_punctuation());
    let mut p: usize = s.len();
    loop
        invariant
            p <= s@.len(),
            s@ == text@,
            base@ == b@,
            punct@ == closing_punctuation(),
            b@ == service_base(port as nat),
            announced_url(text@, port as nat) == last_url(s@, b@, p as int),
        decreases p,
    {
        if stands_at(s.as_slice(), b.as_slice(), p) {
            let total: usize = s.len();
            assert(p + b@.len() <= total);
            let after = cut(s.as_slice(), p + b.len(), total);
            let k: usize = count_upto_space(after);
            proof {
                text::lemma_upto_space(after@);
            }
            let tail = cut_end_set(cut(after, 0, k), punct.as_slice());
            assert(tail@ == url_tail(s@, b@, p as int));
            if tail.len() == 0 || tail[0] == '/' || tail[0] == '?' {
                let url = cat(base.as_str(), string_of(tail).as_str());
                return Some(url);
            }
        }
        if p == 0 {
            assert(last_url(s@, b@, -1) is None);
            return None;
        }
        p = p - 1;
    }
}

/// The package that a line blames for a failed import: what its first pair of brackets holds.
pub open spec fn blamed_package(line: Seq<char>) -> Option<Seq<char>> {
    let open = text::upto(line, '(');
    if !text::contains(line, "failed to import loader entry"@) || open >= line.len() {
        None
    } else {
        let rest = line.subrange(open as int + 1, line.len() as int);
        let close = if text::upto(rest, ')') < rest.len() {
            text::upto(rest, ')')
        } else {
            text::upto(rest, ':')
        };
        let name = text::trim(rest.subrange(0, close as int));
        if name.len() == 0 {
            None
        } else {
            Some(name)
        }
    }
}

/// The packages that lines blame, each once, in the order in which they are first named.
pub open spec fn blamed_packages(ls: Seq<Seq<char>>) -> Seq<Seq<char>>
    decreases ls.len(),
{
    if ls.len() == 0 {
        Seq::empty()
    } else {
        let before = blamed_packages(ls.drop_last());
        match blamed_package(ls.last()) {
            Some(name) if !before.contains(name) => before.push(name),
            _ => before,
        }
    }
}

/// No package is blamed twice, and every package that a line blames is on the list.
pub proof fn blamed_packages_are_distinct(ls: Seq<Seq<char>>)
    ensures
        blamed_packages(ls).no_duplicates(),
        forall|i: int|
            0 <= i < ls.len() ==> (#[trigger] blamed_package(ls[i]) matches Some(name)
                ==> blamed_packages(ls).contains(name)),
    decreases ls.len(),
{
    if ls.len() > 0 {
        let before = blamed_packages(ls.drop_last());
        blamed_packages_are_distinct(ls.drop_last());
        assert forall|i: int| 0 <= i < ls.len() implies (
        #[trigger] blamed_package(ls[i]) matches Some(name) ==> blamed_packages(ls).contains(
            name,
        )) by {
            if let Some(name) = blamed_package(ls[i]) {
                if i < ls.len() - 1 {
                    assert(ls.drop_last()[i] == ls[i]);
                    assert(before.contains(name));
                    let k = choose|k: int| 0 <= k < before.len() && before[k] == name;
                    assert(blamed_packages(ls)[k] == name);
                } else if !before.contains(name) {
                    assert(blamed_packages(ls)[before.len() as int] == name);
                }
            }
        }
    }
}

proof fn lemma_trim_pushed(s: Seq<char>, c: char)
    requires
        text::space(c),
    ensures
        text::trim_start(s.push(c)) == (if text::trim_start(s).len() == 0 {
            Seq::empty()
        } else {
            text::trim_start(s).push(c)
        }),
        text::trim(s.push(c)) == text::trim(s),
    decreases s.len(),
{
    let t = s.push(c);
    if s.len() == 0 {
        assert(t.subrange(1, 1) =~= Seq::<char>::empty());
        assert(text::trim_start(t.subrange(1, 1)) =~= Seq::<char>::empty());
    } else if text::space(s[0]) {
        let rest = s.subrange(1, s.len() as int);
        assert(t.subrange(1, t.len() as int) =~= rest.push(c));
        lemma_trim_pushed(rest, c);
    }
    let begun = text::trim_start(s);
    if begun.len() > 0 {
        assert(begun.push(c).drop_last() =~= begun);
    } else {
        assert(begun =~= Seq::<char>::empty());
    }
}

proof fn lemma_upto_pushed(s: Seq<char>, c: char, end: char)
    requires
        c != end,
    ensures
        text::upto(s.push(end), c) == (if text::upto(s, c) < s.len() {
            text::upto(s, c)
        } else {
            (s.len() + 1) as nat
        }),
        text::upto(s, c) <= s.len(),
    decreases s.len(),
{
    let t = s.push(end);
    if s.len() == 0 {
        assert(t.subrange(1, 1) =~= Seq::<char>::empty());
        assert(text::upto(t.subrange(1, 1), c) == 0);
    } else if s[0] != c {
        let rest = s.subrange(1, s.len() as int);
        assert(t.subrange(1, t.len() as int) =~= rest.push(end));
        lemma_upto_pushed(rest, c, end);
    }
}

proof fn lemma_blamed_without_cr(line: Seq<char>)
    ensures
        blamed_package(text::strip_cr(line)) == blamed_package(line),
{
    if line.len() > 0 && line.last() == '\r' {
        let m = line.drop_last();
        assert(line =~= m.push('\r'));
        let mark = "failed to import loader entry"@;
        reveal_strlit("failed to import loader entry");
        assert(mark[28] == 'y');
        assert(text::contains(line, mark) == text::contains(m, mark)) by {
            if text::contains(m, mark) {
                let i = choose|i: int| text::occurs_at(m, mark, i);
                assert(line.subrange(i, i + mark.len()) =~= m.subrange(i, i + mark.len()));
                assert(text::occurs_at(line, mark, i));
            }
            if text::contains(line, mark) {
                let i = choose|i: int| text::occurs_at(line, mark, i);
                assert(line.subrange(i, i + mark.len())[28] == line[i + 28]);
                assert(i + mark.len() <= m.len());
                assert(line.subrange(i, i + mark.len()) =~= m.subrange(i, i + mark.len()));
                assert(text::occurs_at(m, mark, i));
            }
        }
        lemma_upto_pushed(m, '(', '\r');
        let open = text::upto(m, '(');
        if open < m.len() {
            let rest = m.subrange(open as int + 1, m.len() as int);
            let longer = line.subrange(open as int + 1, line.len() as int);
            assert(longer =~= rest.push('\r'));
            lemma_upto_pushed(rest, ')', '\r');
            lemma_upto_pushed(rest, ':', '\r');
            let close = if text::upto(rest, ')') < rest.len() {
                text::upto(rest, ')')
            } else {
                text::upto(rest, ':')
            };
            if close < rest.len() {
                assert(longer.subrange(0, close as int) =~= rest.subrange(0, close as int));
            } else {
                assert(rest.subrange(0, rest.len() as int) =~= rest);
                assert(longer.subrange(0, longer.len() as int) =~= rest.push('\r'));
                lemma_trim_pushed(rest, '\r');
            }
        }
    }
}

/// The lines of a text behind which a line feed stands.
spec fn ended_lines(s: Seq<char>) -> Seq<Seq<char>>
    decreases s.len(),
{
    let k = text::upto(s, '\n');
    if k < s.len() {
        seq![text::strip_cr(s.subrange(0, k as int))] + ended_lines(
            s.subrange(k as int + 1, s.len() as int),
        )
    } else {
        seq![text::strip_cr(s)]
    }
}

proof fn lemma_lines_joined(a: Seq<char>, b: Seq<char>)
    ensures
        text::lines(a + seq!['\n'] + b) == ended_lines(a) + text::lines(b),
    decreases a.len(),
{
    let s = a + seq!['\n'] + b;
    text::lemma_upto(a, '\n');
    text::lemma_upto(s, '\n');
    let k = text::upto(a, '\n');
    assert(text::upto(s, '\n') == k) by {
        let j = text::upto(s, '\n');
        assert(s[k as int] == '\n');
        if j < k {
            assert(s[j as int] == a[j as int]);
        }
    }
    assert(s.subrange(0, k as int) =~= a.subrange(0, k as int));
    if k < a.len() {
        let rest = a.subrange(k as int + 1, a.len() as int);
        assert(s.subrange(k as int + 1, s.len() as int) =~= rest + seq!['\n'] + b);
        lemma_lines_joined(rest, b);
        assert(text::lines(s) =~= ended_lines(a) + text::lines(b));
    } else {
        assert(a.subrange(0, k as int) =~= a);
        assert(s.subrange(k as int + 1, s.len() as int) =~= b);
    }
}

proof fn lemma_ended_lines(s: Seq<char>)
    ensures
        ({
            let n = ended_lines(s).len();
            let ls = text::lines(s);
            &&& n > 0
            &&& ls.len() == n || (ls.len() == n - 1 && ended_lines(s).last() == Seq::<char>::empty())
            &&& forall|i: int|
                0 <= i < ls.len() ==> (#[trigger] ended_lines(s)[i] == ls[i] || ended_lines(s)[i]
                    == text::strip_cr(ls[i]))
        }),
    decreases s.len(),
{
    text::lemma_upto(s, '\n');
    let k = text::upto(s, '\n');
    if k < s.len() {
        let rest = s.subrange(k as int + 1, s.len() as int);
        lemma_ended_lines(rest);
        let e = ended_lines(s);
        let ls = text::lines(s);
        assert(e =~= seq![text::strip_cr(s.subrange(0, k as int))] + ended_lines(rest));
        assert forall|i: int| 0 <= i < ls.len() implies (#[trigger] e[i] == ls[i] || e[i]
            == text::strip_cr(ls[i])) by {
            if i > 0 {
                assert(e[i] == ended_lines(rest)[i - 1]);
                assert(ls[i] == text::lines(rest)[i - 1]);
            }
        }
        assert(e.last() == ended_lines(rest).last());
    } else if s.len() == 0 {
        assert(s =~= Seq::<char>::empty());
    }
}

proof fn lemma_same_blame(ls: Seq<Seq<char>>, ms: Seq<Seq<char>>)
    requires
        ls.len() == ms.len(),
        forall|i: int|
            0 <= i < ls.len() ==> blamed_package(#[trigger] ls[i]) == blamed_package(ms[i]),
    ensures
        blamed_packages(ls) == blamed_packages(ms),
    decreases ls.len(),
{
    if ls.len() > 0 {
        assert forall|i: int| 0 <= i < ls.len() - 1 implies blamed_package(
            #[trigger] ls.drop_last()[i],
        ) == blamed_package(ms.drop_last()[i]) by {
            assert(ls.drop_last()[i] == ls[i] && ms.drop_last()[i] == ms[i]);
        }
        lemma_same_blame(ls.drop_last(), ms.drop_last());
        assert(ls[ls.len() - 1] == ls.last() && ms[ms.len() - 1] == ms.last());
    }
}

proof fn lemma_known_blame(ls: Seq<Seq<char>>, more: Seq<Seq<char>>)
    requires
        forall|i: int|
            0 <= i < more.len() ==> (blamed_package(#[trigger] more[i]) matches Some(name)
                ==> blamed_packages(ls).contains(name)),
    ensures
        blamed_packages(ls + more) == blamed_packages(ls),
    decreases more.len(),
{
    if more.len() == 0 {
        assert(ls + more =~= ls);
    } else {
        let front = more.drop_last();
        assert forall|i: int| 0 <= i < front.len() implies (blamed_package(
            #[trigger] front[i],
        ) matches Some(name) ==> blamed_packages(ls).contains(name)) by {
            assert(front[i] == more[i]);
        }
        lemma_known_blame(ls, front);
        assert((ls + more).drop_last() =~= ls + front);
        assert((ls + more).last() == more[more.len() - 1]);
    }
}

/// An output that is printed a second time blames nobody else.
pub proof fn repeated_output_blames_the_same(output: Seq<char>)
    ensures
        blamed_packages(text::lines(output + seq!['\n'] + output)) == blamed_packages(
            text::lines(output),
        ),
{
    let ls = text::lines(output);
    let e = ended_lines(output);
    lemma_lines_joined(output, output);
    lemma_ended_lines(output);
    let front = e.subrange(0, ls.len() as int);
    assert forall|i: int| 0 <= i < front.len() implies blamed_package(#[trigger] front[i])
        == blamed_package(ls[i]) by {
        assert(front[i] == e[i]);
        lemma_blamed_without_cr(ls[i]);
    }
    lemma_same_blame(front, ls);
    if e.len() == ls.len() {
        assert(front =~= e);
    } else {
        assert(e.drop_last() =~= front);
        assert(blamed_package(e.last()) is None) by {
            reveal_strlit("failed to import loader entry");
        }
    }
    assert(blamed_packages(e) == blamed_packages(ls));
    blamed_packages_are_distinct(ls);
    assert forall|i: int| 0 <= i < ls.len() implies (blamed_package(#[trigger] ls[i]) matches Some(
        name,
    ) ==> blamed_packages(e).contains(name)) by {}
    lemma_known_blame(e, ls);
}

fn blamed_in(line: &[char]) -> (r: Option<String>)
    ensures
        text::opt(r) == blamed_package(line@),
{
    let text = string_of(line);
    let open: usize = count_upto(line, '(');
    proof {
        text::lemma_upto(line@, '(');
    }
    if !holds(text.as_str(), "failed to import loader entry") || open >= line.len() {
        return None;
    }
    let rest = cut(line, open + 1, line.len());
    let bracket: usize = count_upto(rest, ')');
    let close: usize = if bracket < rest.len() {
        bracket
    } else {
        count_upto(rest, ':')
    };
    proof {
        text::lemma_upto(rest@, ')');
        text::lemma_upto(rest@, ':');
    }
    let name = cut_both(cut(rest, 0, close));
    if name.len() == 0 {
        None
    } else {
        Some(string_of(name))
    }
}

/// The packages that an output blames for failed imports.
pub fn plugin_candidates(text: &str) -> (r: Vec<String>)
    ensures
        text::strs(r@) == blamed_packages(text::lines(text@)),
{
    let s = chars(text);
    let ls = split_lines(s.as_slice());
    let ghost all = text::lines(text@);
    let mut out: Vec<String> = Vec::new();
    assert(text::strs(out@) =~= blamed_packages(all.subrange(0, 0)));
    for i in 0..ls.len()
        invariant
            text::char_vecs(ls@) == all,
            text::strs(out@) == blamed_packages(all.subrange(0, i as int)),
    {
        let ghost before = out@;
        assert(all.subrange(0, i + 1).drop_last() =~= all.subrange(0, i as int));
        assert(ls@[i as int]@ == all[i as int]);
        if let Some(name) = blamed_in(ls[i].as_slice()) {
            if !in_list(out.as_slice(), name.as_str()) {
                out.push(name);
                assert(text::strs(out@) =~= text::strs(before).push(name@));
            }
        }
    }
    assert(all.subrange(0, all.len() as int) =~= all);
    out
}

/// Whether a text begins like an absolute path: with a drive or with a slash.
pub open spec fn path_like(s: Seq<char>) -> bool {
    ||| s.len() >= 3 && text::latin_letter(s[0]) && s[1] == ':' && (s[2] == '\\' || s[2] == '/')
    ||| s.len() >= 1 && s[0] == '/'
}

fn looks_like_path(s: &[char]) -> (r: bool)
    ensures
        r == path_like(s@),
{
    let drive = s.len() >= 3 && (('a' <= s[0] && s[0] <= 'z') || ('A' <= s[0] && s[0] <= 'Z'))
        && s[1] == ':' && (s[2] == '\\' || s[2] == '/');
    drive || (s.len() >= 1 && s[0] == '/')
}

/// The path behind the words `unreadable: `, up to the end of the clause or of the line.
pub open spec fn marked_path(text: Seq<char>) -> Option<Seq<char>> {
    match text::find(text, "unreadable: "@) {
        None => None,
        Some(p) => {
            let after = text.subrange(p + "unreadable: "@.len(), text.len() as int);
            let path = text::trim(after.subrange(0, text::upto_any(after, seq![';', '\n', '\r']) as int));
            if path_like(path) {
                Some(path)
            } else {
                None
            }
        },
    }
}

/// Punctuation that may follow a path in running text.
pub open spec fn path_punctuation() -> Seq<char> {
    seq![';', ',', ')', ']', '}', '"', '\'']
}

/// Whether a word, without the punctuation that follows it, is the path of a lock file.
pub open spec fn lock_word(word: Seq<char>) -> bool {
    let t = text::strip_end(word, path_punctuation());
    ".lock"@.is_suffix_of(t) && path_like(t)
}

/// The first path of a lock file among words.
pub open spec fn first_lock_word(ws: Seq<Seq<char>>) -> Option<Seq<char>>
    decreases ws.len(),
{
    if ws.len() == 0 {
        None
    } else if lock_word(ws[0]) {
        Some(text::strip_end(ws[0], path_punctuation()))
    } else {
        first_lock_word(ws.subrange(1, ws.len() as int))
    }
}

/// The lock file that an output names.
pub open spec fn named_lock(text: Seq<char>) -> Option<Seq<char>> {
    match marked_path(text) {
        Some(path) => Some(path),
        None => first_lock_word(text::words(text)),
    }
}

fn path_behind_mark(s: &[char]) -> (r: Option<String>)
    ensures
        text::opt(r) == marked_path(s@),
{
    let mark = chars("unreadable: ");
    let n: usize = s.len();
    match position(s, mark.as_slice(), 0) {
        None => None,
        Some(p) => {
            proof {
                text::lemma_find_from(s@, mark@, 0);
            }
            let after = cut(s, p + mark.len(), n);
            let stops: Vec<char> = vec![';', '\n', '\r'];
            assert(stops@ =~= seq![';', '\n', '\r']);
            let k: usize = count_upto_any(after, stops.as_slice());
            let path = cut_both(cut(after, 0, k));
            if looks_like_path(path) {
                Some(string_of(path))
            } else {
                None
            }
        },
    }
}

/// The lock file that an output names.
pub fn extract_lock_path(text: &str) -> (r: Option<String>)
    ensures
        text::opt(r) == named_lock(text@),
{
    let s = chars(text);
    if let Some(path) = path_behind_mark(s.as_slice()) {
        return Some(path);
    }
    let ws = split_words(s.as_slice());
    let ghost all = text::words(text@);
    let punct: Vec<char> = vec![';', ',', ')', ']', '}', '"', '\''];
    assert(punct@ =~= path_punctuation());
    assert(all.subrange(0, all.len() as int) =~= all);
    for i in 0..ws.len()
        invariant
            text::char_vecs(ws@) == all,
            punct@ == path_punctuation(),
            marked_path(text@) is None,
            all == text::words(text@),
            first_lock_word(all) == first_lock_word(all.subrange(i as int, all.len() as int)),
    {
        let ghost rest = all.subrange(i as int, all.len() as int);
        assert(ws@[i as int]@ == all[i as int]);
        assert(rest.subrange(1, rest.len() as int) =~= all.subrange(i + 1, all.len() as int));
        let t = cut_end_set(ws[i].as_slice(), punct.as_slice());
        let word = string_of(t);
        if ends(word.as_str(), ".lock") && looks_like_path(t) {
            return Some(word);
        }
    }
    None
}

/// What kind of failure an output tells of. A broken plugin tree goes before a stale lock.
pub open spec fn kind_of(text: Seq<char>) -> FailureView {
    if text::contains(text, "plugin tree failed to load"@) || text::contains(
        text,
        "failed to import loader entry"@,
    ) || text::contains(text, "does not provide an export named"@) {
        FailureView::PluginTree
    } else if text::contains(text, "leftover from an unclean shutdown"@) || text::contains(
        text,
        "remove it manually and retry"@,
    ) {
        FailureView::StaleLock { lock_path: named_lock(text) }
    } else {
        FailureView::Unknown
    }
}

/// What kind of failure an output tells of.
pub fn classify(text: &str) -> (r: FailureKind)
    ensures
        r@ == kind_of(text@),
{
    if holds(text, "plugin tree failed to load") || holds(text, "failed to import loader entry")
        || holds(text, "does not provide an export named") {
        return FailureKind::PluginTree;
    }
    if holds(text, "leftover from an unclean shutdown") || holds(
        text,
        "remove it manually and retry",
    ) {
        return FailureKind::StaleLock { lock_path: extract_lock_path(text) };
    }
    FailureKind::Unknown
}

proof fn lemma_url_tail(text: Seq<char>, base: Seq<char>, p: int)
    requires
        text::occurs_at(text, base, p),
    ensures
        ({
            let tail = url_tail(text, base, p);
            let begin = p + base.len();
            let end = begin + text::upto_space(text.subrange(begin, text.len() as int));
            &&& begin + tail.len() <= end <= text.len()
            &&& tail == text.subrange(begin, begin + tail.len())
            &&& forall|k: int| begin <= k < end ==> !text::space(#[trigger] text[k])
            &&& forall|k: int|
                begin + tail.len() <= k < end ==> closing_punctuation().contains(
                    #[trigger] text[k],
                )
            &&& tail.len() > 0 ==> !closing_punctuation().contains(tail.last())
            &&& end < text.len() ==> text::space(text[end])
        }),
{
    let begin = p + base.len();
    let after = text.subrange(begin, text.len() as int);
    text::lemma_upto_space(after);
    let k = text::upto_space(after) as int;
    let held = after.subrange(0, k);
    let tail = url_tail(text, base, p);
    text::stripping_takes_only_the_set(held, closing_punctuation());
    assert(tail =~= text.subrange(begin, begin + tail.len()));
    assert forall|j: int| begin <= j < begin + k implies !text::space(#[trigger] text[j]) by {
        assert(after[j - begin] == text[j]);
    }
    assert forall|j: int| begin + tail.len() <= j < begin + k implies closing_punctuation().contains(
        #[trigger] text[j],
    ) by {
        assert(held[j - begin] == text[j]);
    }
    if k < after.len() {
        assert(after[k] == text[begin + k]);
    }
}

/// An address that is announced stands in the text as it is, begins with the service's own address
/// on the port, holds no white space, and goes on to the next white space or to the end of the text,
/// but for brackets, quotes and punctuation that close the sentence around it.
pub proof fn announced_address_ends_at_space(text: Seq<char>, port: nat)
    ensures
        announced_url(text, port) matches Some(u) ==> {
            &&& ("http://127.0.0.1:"@ + text::decimal(port)).is_prefix_of(u)
            &&& forall|i: int|
                "http://127.0.0.1:"@.len() + text::decimal(port).len() <= i < u.len()
                    ==> !text::space(#[trigger] u[i])
            &&& u.len() > "http://127.0.0.1:"@.len() + text::decimal(port).len() ==> {
                let first = u["http://127.0.0.1:"@.len() + text::decimal(port).len() as int];
                &&& first == '/' || first == '?'
                &&& !seq![')', ',', ';', '"', '\'', '。', ']', '}'].contains(u.last())
            }
            &&& exists|p: int, e: int|
                {
                    &&& #[trigger] text::occurs_at(text, u, p)
                    &&& p + u.len() <= e <= text.len()
                    &&& #[trigger] text.subrange(0, e).len() == e
                    &&& e == text.len() || text::space(text[e])
                    &&& forall|k: int|
                        p + u.len() <= k < e ==> seq![
                            ')',
                            ',',
                            ';',
                            '"',
                            '\'',
                            '。',
                            ']',
                            '}',
                        ].contains(#[trigger] text[k])
                }
        },
{
    let base = service_base(port);
    lemma_last_url(text, base, text.len() as int);
    if let Some(u) = announced_url(text, port) {
        let p = choose|p: int|
            {
                &&& 0 <= p <= text.len()
                &&& #[trigger] url_at(text, base, p)
                &&& u == base + url_tail(text, base, p)
                &&& forall|q: int| p < q <= text.len() ==> !#[trigger] url_at(text, base, q)
            };
        lemma_url_tail(text, base, p);
        let tail = url_tail(text, base, p);
        let begin = p + base.len();
        let e = begin + text::upto_space(text.subrange(begin, text.len() as int));
        assert(text.subrange(p, p + u.len()) =~= u) by {
            assert(text.subrange(p, p + base.len()) =~= base);
            assert forall|i: int| 0 <= i < u.len() implies text.subrange(p, p + u.len())[i]
                == u[i] by {
                if i < base.len() {
                    assert(text.subrange(p, p + base.len())[i] == base[i]);
                } else {
                    assert(tail[i - base.len()] == text[p + i]);
                }
            }
        }
        assert(text::occurs_at(text, u, p));
        assert(text.subrange(0, e).len() == e);
        assert forall|i: int| base.len() <= i < u.len() implies !text::space(#[trigger] u[i]) by {
            assert(u[i] == tail[i - base.len()]);
            assert(tail[i - base.len()] == text[p + i]);
        }
        if tail.len() > 0 {
            assert(u.last() == tail.last());
            assert(u[base.len() as int] == tail[0]);
        }
    }
}

/// An address of the port that is printed with white space or nothing behind it is read as it was
/// printed, up to there, whatever was printed before, as long as no other address is printed later.
pub proof fn printed_address_is_read(
    before: Seq<char>,
    path: Seq<char>,
    rest: Seq<char>,
    port: nat,
)
    requires
        path.len() > 0 ==> path[0] == '/' || path[0] == '?',
        path.len() > 0 ==> !seq![')', ',', ';', '"', '\'', '。', ']', '}'].contains(path.last()),
        forall|i: int| 0 <= i < path.len() ==> !text::space(#[trigger] path[i]),
        rest.len() > 0 ==> text::space(rest[0]),
        !text::contains(
            ("http://127.0.0.1:"@ + text::decimal(port) + path + rest).subrange(
                1,
                ("http://127.0.0.1:"@ + text::decimal(port) + path + rest).len() as int,
            ),
            "http://127.0.0.1:"@ + text::decimal(port),
        ),
    ensures
        announced_url(
            before + ("http://127.0.0.1:"@ + text::decimal(port) + path + rest),
            port,
        ) == Some("http://127.0.0.1:"@ + text::decimal(port) + path),
{
    let base = service_base(port);
    let own = base + path + rest;
    let text = before + own;
    let p = before.len() as int;
    reveal_strlit("http://127.0.0.1:");
    assert(text.subrange(p, p + base.len()) =~= base);
    assert(text::occurs_at(text, base, p));
    let begin = p + base.len();
    let after = text.subrange(begin, text.len() as int);
    assert(after =~= path + rest);
    text::lemma_upto_space(after);
    let k = text::upto_space(after) as int;
    assert(k == path.len()) by {
        if k < path.len() {
            assert(after[k] == path[k]);
        } else if k > path.len() {
            assert(after[path.len() as int] == rest[0]);
        }
    }
    let held = after.subrange(0, k);
    assert(held =~= path);
    text::stripping_takes_only_the_set(held, closing_punctuation());
    let n = text::strip_end(held, closing_punctuation()).len() as int;
    assert(n == path.len()) by {
        if n < path.len() {
            assert(closing_punctuation().contains(held[path.len() - 1]));
        }
    }
    assert(url_tail(text, base, p) =~= path);
    assert(url_at(text, base, p));
    let tail = own.subrange(1, own.len() as int);
    assert forall|q: int| p < q <= text.len() implies !#[trigger] url_at(text, base, q) by {
        if text::occurs_at(text, base, q) {
            assert(tail.subrange(q - p - 1, q - p - 1 + base.len()) =~= text.subrange(
                q,
                q + base.len(),
            ));
            assert(text::occurs_at(tail, base, q - p - 1));
        }
    }
    last_address_wins(text, port);
    let u = announced_url(text, port)->0;
    let w = choose|w: int|
        {
            &&& 0 <= w <= text.len()
            &&& #[trigger] url_at(text, base, w)
            &&& u == base + url_tail(text, base, w)
            &&& forall|q: int| w < q <= text.len() ==> !#[trigger] url_at(text, base, q)
        };
    assert(w == p);
    assert(base + path == "http://127.0.0.1:"@ + text::decimal(port) + path);
}

/// A line that tells of a failed import blames the package between its first brackets, without the
/// white space around it. A line that tells of none blames nobody.
pub proof fn blamed_package_stands_in_brackets(
    front: Seq<char>,
    name: Seq<char>,
    rest: Seq<char>,
    line: Seq<char>,
)
    requires
        !front.contains('('),
        !name.contains(')'),
        text::trim(name).len() > 0,
    ensures
        text::contains(front + seq!['('] + name + seq![')'] + rest, "failed to import loader entry"@)
            ==> blamed_package(front + seq!['('] + name + seq![')'] + rest) == Some(
            text::trim(name),
        ),
        !text::contains(line, "failed to import loader entry"@) ==> blamed_package(line) is None,
        !line.contains('(') ==> blamed_package(line) is None,
{
    let all = front + seq!['('] + name + seq![')'] + rest;
    text::lemma_upto(all, '(');
    text::lemma_upto(line, '(');
    let open = text::upto(all, '(') as int;
    assert(all[front.len() as int] == '(');
    if open < front.len() {
        assert(all[open] == front[open]);
        assert(front.contains(front[open]));
    }
    assert(open == front.len());
    let behind = all.subrange(open + 1, all.len() as int);
    assert(behind =~= name + seq![')'] + rest);
    text::lemma_upto(behind, ')');
    let close = text::upto(behind, ')') as int;
    assert(behind[name.len() as int] == ')');
    if close < name.len() {
        assert(behind[close] == name[close]);
        assert(name.contains(name[close]));
    }
    assert(close == name.len());
    assert(behind.subrange(0, close) =~= name);
    if text::upto(line, '(') < line.len() {
        assert(line.contains(line[text::upto(line, '(') as int]));
    }
}

/// Only packages that a line blames are on the list, and one that is blamed in an earlier line than
/// another comes before it.
pub proof fn blamed_packages_come_in_order(ls: Seq<Seq<char>>)
    ensures
        forall|k: int|
            0 <= k < blamed_packages(ls).len() ==> exists|i: int|
                0 <= i < ls.len() && blamed_package(#[trigger] ls[i]) == Some(
                    #[trigger] blamed_packages(ls)[k],
                ),
        forall|n: int|
            0 <= n <= ls.len() ==> blamed_packages(#[trigger] ls.subrange(0, n)).is_prefix_of(
                blamed_packages(ls),
            ),
    decreases ls.len(),
{
    if ls.len() > 0 {
        let front = ls.drop_last();
        let before = blamed_packages(front);
        let all = blamed_packages(ls);
        blamed_packages_come_in_order(front);
        assert forall|k: int| 0 <= k < all.len() implies exists|i: int|
            0 <= i < ls.len() && blamed_package(#[trigger] ls[i]) == Some(#[trigger] all[k]) by {
            if k < before.len() {
                assert(all[k] == before[k]);
                let i = choose|i: int|
                    0 <= i < front.len() && blamed_package(#[trigger] front[i]) == Some(before[k]);
                assert(ls[i] == front[i]);
            } else {
                assert(ls[ls.len() - 1] == ls.last());
            }
        }
        assert forall|n: int| 0 <= n <= ls.len() implies blamed_packages(
            #[trigger] ls.subrange(0, n),
        ).is_prefix_of(all) by {
            if n == ls.len() {
                assert(ls.subrange(0, n) =~= ls);
            } else {
                assert(ls.subrange(0, n) =~= front.subrange(0, n));
                assert(before.is_prefix_of(all));
            }
        }
    } else {
        assert forall|n: int| 0 <= n <= ls.len() implies blamed_packages(
            #[trigger] ls.subrange(0, n),
        ).is_prefix_of(blamed_packages(ls)) by {
            assert(ls.subrange(0, n) =~= ls);
        }
    }
}

/// An output tells of broken plugins by any of three phrases, whatever else it says; else of a lock
/// that was left behind by any of two; else of nothing that is known.
pub proof fn phrases_tell_the_failure(text: Seq<char>)
    ensures
        kind_of(text) is PluginTree <==> text::contains(text, "plugin tree failed to load"@)
            || text::contains(text, "failed to import loader entry"@) || text::contains(
            text,
            "does not provide an export named"@,
        ),
        kind_of(text) is StaleLock <==> !(kind_of(text) is PluginTree) && (text::contains(
            text,
            "leftover from an unclean shutdown"@,
        ) || text::contains(text, "remove it manually and retry"@)),
{
}

/// The lock file that is named is an absolute path. A path that the output calls unreadable is the
/// one, up to the end of its clause; else it is the first word that ends as a lock file does.
pub proof fn named_lock_is_a_path(text: Seq<char>)
    ensures
        named_lock(text) matches Some(path) ==> {
            ||| path.len() > 0 && path[0] == '/'
            ||| path.len() > 2 && ('a' <= path[0] <= 'z' || 'A' <= path[0] <= 'Z') && path[1] == ':' && (
            path[2] == '/' || path[2] == '\\')
        },
        marked_path(text) is None ==> (named_lock(text) matches Some(path) ==> ".lock"@.is_suffix_of(
            path,
        )),
        forall|i: int|
            0 <= i < text::words(text).len() ==> ({
                let path = text::strip_end(
                    #[trigger] text::words(text)[i],
                    seq![';', ',', ')', ']', '}', '"', '\''],
                );
                &&& ".lock"@.is_suffix_of(path)
                &&& path[0] == '/'
                &&& path.len() > 0
            } ==> named_lock(text) is Some),
{
    lemma_first_lock_word(text::words(text));
}

proof fn lemma_first_lock_word(ws: Seq<Seq<char>>)
    ensures
        first_lock_word(ws) matches Some(path) ==> path_like(path) && ".lock"@.is_suffix_of(path),
        first_lock_word(ws) is None ==> forall|i: int|
            0 <= i < ws.len() ==> !lock_word(#[trigger] ws[i]),
    decreases ws.len(),
{
    if ws.len() > 0 && !lock_word(ws[0]) {
        let rest = ws.subrange(1, ws.len() as int);
        lemma_first_lock_word(rest);
        if first_lock_word(ws) is None {
            assert forall|i: int| 0 <= i < ws.len() implies !lock_word(#[trigger] ws[i]) by {
                if i > 0 {
                    assert(rest[i - 1] == ws[i]);
                }
            }
        }
    }
}

/// A path that an output calls unreadable is named as the lock file, from behind these words to the
/// semicolon or the end of the line.
pub proof fn unreadable_path_is_named(front: Seq<char>, path: Seq<char>, rest: Seq<char>)
    requires
        path.len() > 0,
        path[0] == '/',
        !text::space(path.last()),
        forall|i: int|
            0 <= i < path.len() ==> #[trigger] path[i] != ';' && path[i] != '\n' && path[i] != '\r',
        rest.len() > 0 ==> rest[0] == ';' || rest[0] == '\n' || rest[0] == '\r',
        text::find(front + "unreadable: "@ + path + rest, "unreadable: "@) == Some(
            front.len() as int,
        ),
    ensures
        named_lock(front + "unreadable: "@ + path + rest) == Some(path),
{
    let mark = "unreadable: "@;
    let all = front + mark + path + rest;
    let after = all.subrange((front.len() + mark.len()) as int, all.len() as int);
    assert(after =~= path + rest);
    let stops = seq![';', '\n', '\r'];
    lemma_upto_stop(path, rest, stops);
    assert(after.subrange(0, path.len() as int) =~= path);
    assert(text::trim_start(path) == path);
    assert(text::trim(path) == path);
}

proof fn lemma_upto_stop(a: Seq<char>, b: Seq<char>, stops: Seq<char>)
    requires
        forall|i: int| 0 <= i < a.len() ==> !stops.contains(#[trigger] a[i]),
        b.len() > 0 ==> stops.contains(b[0]),
    ensures
        text::upto_any(a + b, stops) == a.len(),
    decreases a.len(),
{
    let s = a + b;
    if a.len() == 0 {
        assert(s =~= b);
    } else {
        let rest = a.subrange(1, a.len() as int);
        assert(s[0] == a[0]);
        assert(s.subrange(1, s.len() as int) =~= rest + b);
        assert forall|i: int| 0 <= i < rest.len() implies !stops.contains(#[trigger] rest[i]) by {
            assert(rest[i] == a[i + 1]);
        }
        lemma_upto_stop(rest, b, stops);
    }
}

/// What is kept of an output is its end: all of it where it is short enough, else as much as may be
/// kept.
pub proof fn capture_keeps_the_end(output: Seq<u8>, limit: nat)
    ensures
        last_of(output, limit).is_suffix_of(output),
        last_of(output, limit).len() == (if output.len() < limit {
            output.len()
        } else {
            limit
        }),
{
    assert(last_of(output, limit) =~= output.subrange(
        output.len() - last_of(output, limit).len(),
        output.len() as int,
    ));
}

/// Where no path is called unreadable, the lock file that is named is the first word that is one.
pub proof fn first_lock_is_named(ws: Seq<Seq<char>>, path: Seq<char>, text: Seq<char>)
    requires
        marked_path(text) is None,
        text::words(text) == ws,
        named_lock(text) == Some(path),
    ensures
        exists|i: int|
            {
                &&& 0 <= i < ws.len()
                &&& path == text::strip_end(
                    #[trigger] ws[i],
                    seq![';', ',', ')', ']', '}', '"', '\''],
                )
                &&& forall|j: int|
                    0 <= j < i ==> ({
                        let other = text::strip_end(
                            #[trigger] ws[j],
                            seq![';', ',', ')', ']', '}', '"', '\''],
                        );
                        !(".lock"@.is_suffix_of(other) && other.len() > 0 && other[0] == '/')
                    })
            },
{
    lemma_lock_place(ws);
}

proof fn lemma_lock_place(ws: Seq<Seq<char>>)
    ensures
        first_lock_word(ws) matches Some(path) ==> exists|i: int|
            {
                &&& 0 <= i < ws.len()
                &&& path == text::strip_end(#[trigger] ws[i], path_punctuation())
                &&& forall|j: int| 0 <= j < i ==> !lock_word(#[trigger] ws[j])
            },
    decreases ws.len(),
{
    if ws.len() > 0 && lock_word(ws[0]) {
        assert(first_lock_word(ws)->0 == text::strip_end(ws[0], path_punctuation()));
    } else if ws.len() > 0 {
        let rest = ws.subrange(1, ws.len() as int);
        lemma_lock_place(rest);
        if let Some(path) = first_lock_word(ws) {
            let i = choose|i: int|
                {
                    &&& 0 <= i < rest.len()
                    &&& path == text::strip_end(#[trigger] rest[i], path_punctuation())
                    &&& forall|j: int| 0 <= j < i ==> !lock_word(#[trigger] rest[j])
                };
            assert(ws[i + 1] == rest[i]);
            assert forall|j: int| 0 <= j < i + 1 implies !lock_word(#[trigger] ws[j]) by {
                if j > 0 {
                    assert(rest[j - 1] == ws[j]);
                }
            }
        }
    }
}

/// The address that is read out of an output stands in it up to the next white space, but for
/// closing punctuation, and holds no white space itself.
pub proof fn read_address_holds_no_space(text: &str, port: u16, r: Option<String>)
    requires
        call_ensures(extract_url, (text, port), r),
    ensures
        r matches Some(u) ==> {
            &&& ("http://127.0.0.1:"@ + text::decimal(port as nat)).is_prefix_of(u@)
            &&& forall|i: int| 0 <= i < u@.len() ==> !text::space(#[trigger] u@[i])
            &&& exists|p: int, e: int|
                {
                    &&& #[trigger] text::occurs_at(text@, u@, p)
                    &&& p + u@.len() <= e <= text@.len()
                    &&& #[trigger] text@.subrange(0, e).len() == e
                    &&& e == text@.len() || text::space(text@[e])
                    &&& forall|k: int|
                        p + u@.len() <= k < e ==> seq![
                            ')',
                            ',',
                            ';',
                            '"',
                            '\'',
                            '。',
                            ']',
                            '}',
                        ].contains(#[trigger] text@[k])
                }
        },
{
    announced_address_ends_at_space(text@, port as nat);
    text::digits_spell_the_number(port as nat);
    reveal_strlit("http://127.0.0.1:");
    let base = "http://127.0.0.1:"@ + text::decimal(port as nat);
    if let Some(u) = r {
        assert forall|i: int| 0 <= i < u@.len() implies !text::space(#[trigger] u@[i]) by {
            if i < base.len() {
                assert(u@[i] == base[i]);
                if i < 17 {
                    assert(base[i] == "http://127.0.0.1:"@[i]);
                } else {
                    assert(base[i] == text::decimal(port as nat)[i - 17]);
                }
            }
        }
    }
}

/// What kind of failure is told is what the phrases in the output say.
pub proof fn told_failure_is_in_the_output(text: &str, r: FailureKind)
    requires
        call_ensures(classify, (text,), r),
    ensures
        r is PluginTree <==> text::contains(text@, "plugin tree failed to load"@) || text::contains(
            text@,
            "failed to import loader entry"@,
        ) || text::contains(text@, "does not provide an export named"@),
        r is StaleLock <==> !(r is PluginTree) && (text::contains(
            text@,
            "leftover from an unclean shutdown"@,
        ) || text::contains(text@, "remove it manually and retry"@)),
        r matches FailureKind::StaleLock { lock_path } ==> text::opt(lock_path) == named_lock(text@),
{
    phrases_tell_the_failure(text@);
}

/// Exactly the packages that lines of the output blame are found, each once.
pub proof fn blamed_packages_are_found(text: &str, r: Vec<String>)
    requires
        call_ensures(plugin_candidates, (text,), r),
    ensures
        text::strs(r@).no_duplicates(),
        forall|name: Seq<char>| #[trigger]
            text::strs(r@).contains(name) <==> exists|i: int|
                0 <= i < text::lines(text@).len() && blamed_package(
                    #[trigger] text::lines(text@)[i],
                ) == Some(name),
{
    let ls = text::lines(text@);
    blamed_packages_are_distinct(ls);
    blamed_packages_come_in_order(ls);
    assert forall|name: Seq<char>| #[trigger] text::strs(r@).contains(name) implies exists|i: int|
        0 <= i < ls.len() && blamed_package(#[trigger] ls[i]) == Some(name) by {
        let k = choose|k: int| 0 <= k < text::strs(r@).len() && text::strs(r@)[k] == name;
        assert(blamed_packages(ls)[k] == name);
    }
    assert forall|name: Seq<char>|
        (exists|i: int| 0 <= i < ls.len() && blamed_package(#[trigger] ls[i]) == Some(
            name,
        )) implies #[trigger] text::strs(r@).contains(name) by {
        let i = choose|i: int| 0 <= i < ls.len() && blamed_package(#[trigger] ls[i]) == Some(name);
        assert(blamed_package(ls[i]) == Some(name));
    }
}

/// The lock file that is found is an absolute path.
pub proof fn found_lock_is_a_path(text: &str, r: Option<String>)
    requires
        call_ensures(extract_lock_path, (text,), r),
    ensures
        text::opt(r) == named_lock(text@),
        r matches Some(path) ==> {
            ||| path@.len() > 0 && path@[0] == '/'
            ||| path@.len() > 2 && ('a' <= path@[0] <= 'z' || 'A' <= path@[0] <= 'Z') && path@[1]
                == ':' && (path@[2] == '/' || path@[2] == '\\')
        },
{
    named_lock_is_a_path(text@);
}

/// Each kind of failure has its own name for the page.
pub proof fn kinds_have_their_names(kind: &FailureKind, r: &'static str)
    requires
        call_ensures(FailureKind::kind_str, (kind,), r),
    ensures
        kind is PluginTree ==> r@ == "plugins"@,
        kind is StaleLock ==> r@ == "stale-lock"@,
        kind is Unknown ==> r@ == "unknown"@,
{
}

/// Output is taken in behind what is there, and its end is kept as far as it may be; what is read out
/// of it is what its text says.
pub proof fn capture_takes_in_and_tells(
    capture: &mut ServiceCapture,
    chunk: &[u8],
    held: &ServiceCapture,
    port: u16,
    words: String,
    url: Option<String>,
    kind: FailureKind,
)
    requires
        call_ensures(ServiceCapture::push_bytes, (capture, chunk), ()),
        call_ensures(ServiceCapture::text, (held,), words),
        call_ensures(ServiceCapture::captured_url, (held, port), url),
        call_ensures(ServiceCapture::classify, (held,), kind),
    ensures
        final(capture).limit() == old(capture).limit(),
        final(capture).bytes().is_suffix_of(old(capture).bytes() + chunk@),
        old(capture).bytes().len() + chunk@.len() <= old(capture).limit() ==> final(capture).bytes() == old(capture).bytes() + chunk@,
        old(capture).bytes().len() + chunk@.len() > old(capture).limit() ==> final(capture).bytes().len() == old(capture).limit(),
        words@ == text::utf8_lossy(held.bytes()),
        port == 0 ==> url is None,
        port != 0 ==> text::opt(url) == announced_url(words@, port as nat),
        kind@ == kind_of(words@),
{
    capture_keeps_the_end(old(capture).bytes() + chunk@, old(capture).limit());
}

} // verus!
