//! How a process is started on Windows: its command line and the flags of its creation.
use crate::text;
use crate::text::{chars, string_of};
use vstd::prelude::*;

verus! {

/// Whether a character makes it necessary to quote an argument.
pub open spec fn needs_quotes(c: char) -> bool {
    c == ' ' || c == '\t' || c == '"'
}

/// A number of backslashes.
pub open spec fn backslashes(n: nat) -> Seq<char> {
    Seq::new(n, |i: int| '\\')
}

/// What stands between the quotes for an argument, where `held` backslashes come before it.
/// Backslashes are doubled before a quote, and only there.
pub open spec fn quoted_body(s: Seq<char>, held: nat) -> Seq<char>
    decreases s.len(),
{
    if s.len() == 0 {
        backslashes(2 * held)
    } else {
        let rest = s.subrange(1, s.len() as int);
        if s[0] == '\\' {
            quoted_body(rest, held + 1)
        } else if s[0] == '"' {
            backslashes(2 * held + 1) + seq!['"'] + quoted_body(rest, 0)
        } else {
            backslashes(held) + seq![s[0]] + quoted_body(rest, 0)
        }
    }
}

/// Whether an argument can stand in a command line as it is.
pub open spec fn plain_arg(s: Seq<char>) -> bool {
    s.len() > 0 && forall|i: int| 0 <= i < s.len() ==> !needs_quotes(#[trigger] s[i])
}

/// An argument as it stands in a command line.
pub open spec fn quoted(s: Seq<char>) -> Seq<char> {
    if plain_arg(s) {
        s
    } else {
        seq!['"'] + quoted_body(s, 0) + seq!['"']
    }
}

/// The argument that a program of Windows reads at the front of a command line, `held`
/// backslashes having come before, inside or outside of quotes. White space ends it outside of
/// quotes. Before a quote two backslashes stand for one, and an odd one takes the quote's
/// meaning away.
pub open spec fn read_back(line: Seq<char>, inside: bool, held: nat) -> Seq<char>
    decreases line.len(),
{
    if line.len() == 0 {
        backslashes(held)
    } else {
        let rest = line.subrange(1, line.len() as int);
        if line[0] == '\\' {
            read_back(rest, inside, held + 1)
        } else if line[0] == '"' {
            if held % 2 == 0 {
                backslashes(held / 2) + read_back(rest, !inside, 0)
            } else {
                backslashes(held / 2) + seq!['"'] + read_back(rest, inside, 0)
            }
        } else if !inside && (line[0] == ' ' || line[0] == '\t') {
            backslashes(held)
        } else {
            backslashes(held) + seq![line[0]] + read_back(rest, inside, 0)
        }
    }
}

proof fn lemma_read_backslashes(n: nat, x: Seq<char>, inside: bool, held: nat)
    ensures
        read_back(backslashes(n) + x, inside, held) == read_back(x, inside, held + n),
    decreases n,
{
    let line = backslashes(n) + x;
    if n == 0 {
        assert(line =~= x);
    } else {
        assert(line.subrange(1, line.len() as int) =~= backslashes((n - 1) as nat) + x);
        lemma_read_backslashes((n - 1) as nat, x, inside, held + 1);
    }
}

proof fn lemma_read_quoted(s: Seq<char>, held: nat, tail: Seq<char>)
    requires
        tail.len() == 0 || tail[0] == ' ',
    ensures
        read_back(quoted_body(s, held) + (seq!['"'] + tail), true, 0) == backslashes(held) + s,
    decreases s.len(),
{
    let end = seq!['"'] + tail;
    if s.len() == 0 {
        lemma_read_backslashes(2 * held, end, true, 0);
        assert(end.subrange(1, end.len() as int) =~= tail);
        assert(read_back(tail, false, 0) =~= Seq::<char>::empty());
        assert(read_back(end, true, 2 * held) =~= backslashes(held) + s);
    } else {
        let rest = s.subrange(1, s.len() as int);
        if s[0] == '\\' {
            lemma_read_quoted(rest, held + 1, tail);
            assert(backslashes(held + 1) + rest =~= backslashes(held) + s);
        } else if s[0] == '"' {
            lemma_read_quoted(rest, 0, tail);
            let next = quoted_body(rest, 0) + end;
            let from = seq!['"'] + next;
            assert(quoted_body(s, held) + end =~= backslashes(2 * held + 1) + from);
            lemma_read_backslashes(2 * held + 1, from, true, 0);
            assert(from.subrange(1, from.len() as int) =~= next);
            assert(backslashes(0) + rest =~= rest);
            assert((2 * held + 1) / 2 == held);
            assert(backslashes(held) + seq!['"'] + rest =~= backslashes(held) + s);
        } else {
            lemma_read_quoted(rest, 0, tail);
            let next = quoted_body(rest, 0) + end;
            let from = seq![s[0]] + next;
            assert(quoted_body(s, held) + end =~= backslashes(held) + from);
            lemma_read_backslashes(held, from, true, 0);
            assert(from.subrange(1, from.len() as int) =~= next);
            assert(backslashes(0) + rest =~= rest);
            assert(backslashes(held) + seq![s[0]] + rest =~= backslashes(held) + s);
        }
    }
}

proof fn lemma_read_plain(s: Seq<char>, held: nat, tail: Seq<char>)
    requires
        tail.len() == 0 || tail[0] == ' ',
        forall|i: int| 0 <= i < s.len() ==> !needs_quotes(#[trigger] s[i]),
    ensures
        read_back(s + tail, false, held) == backslashes(held) + s,
    decreases s.len(),
{
    let line = s + tail;
    if s.len() == 0 {
        assert(line =~= tail);
        assert(backslashes(held) + s =~= backslashes(held));
    } else {
        let rest = s.subrange(1, s.len() as int);
        assert(line.subrange(1, line.len() as int) =~= rest + tail);
        assert(!needs_quotes(s[0]));
        assert forall|i: int| 0 <= i < rest.len() implies !needs_quotes(#[trigger] rest[i]) by {
            assert(rest[i] == s[i + 1]);
        }
        if s[0] == '\\' {
            lemma_read_plain(rest, held + 1, tail);
            assert(backslashes(held + 1) + rest =~= backslashes(held) + s);
        } else {
            lemma_read_plain(rest, 0, tail);
            assert(backslashes(0) + rest =~= rest);
            assert(backslashes(held) + seq![s[0]] + rest =~= backslashes(held) + s);
        }
    }
}

/// A program that is started gets each argument back as it was, whatever follows it on the
/// command line.
pub proof fn quoted_argument_is_read_back(s: Seq<char>, tail: Seq<char>)
    requires
        tail.len() == 0 || tail[0] == ' ',
    ensures
        read_back(quoted(s) + tail, false, 0) == s,
{
    assert(backslashes(0) + s =~= s);
    if plain_arg(s) {
        lemma_read_plain(s, 0, tail);
    } else {
        let line = quoted(s) + tail;
        let inner = quoted_body(s, 0) + (seq!['"'] + tail);
        assert(line.subrange(1, line.len() as int) =~= inner);
        assert(line[0] == '"');
        lemma_read_quoted(s, 0, tail);
        assert(backslashes(0) + inner =~= inner);
        assert(read_back(line, false, 0) =~= read_back(inner, true, 0));
    }
}

fn push_backslashes(out: &mut Vec<char>, n: usize)
    ensures
        final(out)@ == old(out)@ + backslashes(n as nat),
{
    let ghost before = out@;
    for i in 0..n
        invariant
            out@ == before + backslashes(i as nat),
    {
        out.push('\\');
        assert(out@ =~= before + backslashes((i + 1) as nat));
    }
    assert(out@ =~= before + backslashes(n as nat));
}

/// An argument as it stands in a command line.
pub fn quote_arg(s: &str) -> (r: String)
    ensures
        r@ == quoted(s@),
{
    let v = chars(s);
    let mut plain = v.len() > 0;
    for i in 0..v.len()
        invariant
            v@ == s@,
            plain == (v@.len() > 0 && forall|k: int|
                0 <= k < i ==> !needs_quotes(#[trigger] s@[k])),
    {
        if v[i] == ' ' || v[i] == '\t' || v[i] == '"' {
            assert(needs_quotes(s@[i as int]));
            plain = false;
        }
    }
    if plain {
        return s.to_owned();
    }
    let ghost all = s@;
    let mut out: Vec<char> = Vec::new();
    out.push('"');
    let mut held: usize = 0;
    assert(all.subrange(0, all.len() as int) =~= all);
    assert(out@ =~= seq!['"']);
    for i in 0..v.len()
        invariant
            v@ == all,
            held <= i,
            out@ + quoted_body(all.subrange(i as int, all.len() as int), held as nat) == seq!['"']
                + quoted_body(all, 0),
    {
        let ghost rest = all.subrange(i as int, all.len() as int);
        let ghost next = all.subrange(i + 1, all.len() as int);
        assert(rest.subrange(1, rest.len() as int) =~= next);
        assert(rest[0] == all[i as int]);
        let ghost before = out@;
        let c: char = v[i];
        if c == '\\' {
            held = held + 1;
        } else if c == '"' {
            push_backslashes(&mut out, held);
            push_backslashes(&mut out, held);
            out.push('\\');
            out.push('"');
            assert(out@ =~= before + (backslashes((2 * held + 1) as nat) + seq!['"']));
            assert(out@ + quoted_body(next, 0) =~= before + (backslashes((2 * held + 1) as nat)
                + seq!['"'] + quoted_body(next, 0)));
            held = 0;
        } else {
            push_backslashes(&mut out, held);
            out.push(c);
            assert(out@ + quoted_body(next, 0) =~= before + (backslashes(held as nat) + seq![c]
                + quoted_body(next, 0)));
            held = 0;
        }
    }
    let ghost before = out@;
    let ghost none = all.subrange(all.len() as int, all.len() as int);
    assert(quoted_body(none, held as nat) =~= backslashes((2 * held) as nat));
    push_backslashes(&mut out, held);
    push_backslashes(&mut out, held);
    assert(out@ =~= before + backslashes((2 * held) as nat));
    out.push('"');
    assert(out@ =~= seq!['"'] + quoted_body(all, 0) + seq!['"']);
    string_of(out.as_slice())
}

/// The command line that starts a program with arguments.
pub open spec fn line_of(program: Seq<char>, args: Seq<Seq<char>>) -> Seq<char>
    decreases args.len(),
{
    if args.len() == 0 {
        quoted(program)
    } else {
        line_of(program, args.drop_last()) + seq![' '] + quoted(args.last())
    }
}

/// The command line that starts a program with arguments.
pub fn command_line(program: &str, args: &[String]) -> (r: String)
    ensures
        r@ == line_of(program@, text::strs(args@)),
{
    let ghost all = text::strs(args@);
    let mut out = quote_arg(program);
    assert(all.subrange(0, 0) =~= Seq::<Seq<char>>::empty());
    for i in 0..args.len()
        invariant
            all == text::strs(args@),
            out@ == line_of(program@, all.subrange(0, i as int)),
    {
        assert(all.subrange(0, i + 1).drop_last() =~= all.subrange(0, i as int));
        assert(all.subrange(0, i + 1).last() == args@[i as int]@);
        let ghost before = out@;
        out.push(' ');
        out.append(quote_arg(args[i].as_str()).as_str());
        assert(out@ =~= before + seq![' '] + quoted(args@[i as int]@));
    }
    assert(all.subrange(0, all.len() as int) =~= all);
    out
}

/// What a process is started with besides its command line.
#[derive(Debug, Clone, Copy, PartialEq, Eq, Structural)]
pub struct CreationFlags {
    /// A console of its own, which is hidden.
    pub new_console: bool,
    /// An environment in Unicode.
    pub unicode_environment: bool,
    /// Stopped until it is told to go on.
    pub suspended: bool,
    /// A process group of its own.
    pub new_process_group: bool,
    /// The handles of this process.
    pub inherit_handles: bool,
}

/// What a process is started with. Handles are inherited where one of its outputs is caught.
pub fn creation_flags(suspend: bool, process_group: bool, stdout: bool, stderr: bool) -> (r:
    CreationFlags)
    ensures
        r == (CreationFlags {
            new_console: true,
            unicode_environment: true,
            suspended: suspend,
            new_process_group: process_group,
            inherit_handles: stdout || stderr,
        }),
{
    CreationFlags {
        new_console: true,
        unicode_environment: true,
        suspended: suspend,
        new_process_group: process_group,
        inherit_handles: stdout || stderr,
    }
}

/// Each argument on a command line is quoted for itself and is read back as it was given; arguments
/// stand behind the program in their order, with blanks between them.
pub proof fn command_line_holds_every_argument(
    program: Seq<char>,
    args: Seq<Seq<char>>,
    more: Seq<char>,
)
    ensures
        line_of(program, Seq::empty()) == quoted(program),
        line_of(program, args.push(more)) == line_of(program, args) + seq![' '] + quoted(more),
{
    assert(args.push(more).drop_last() =~= args);
}

/// An argument without blanks, tabulators and quotes is left as it is; any other, and an empty one,
/// stands between quotes.
pub proof fn arguments_are_quoted_where_needed(s: &str, r: String)
    requires
        call_ensures(quote_arg, (s,), r),
    ensures
        s@.len() > 0 && !s@.contains(' ') && !s@.contains('\t') && !s@.contains('"') ==> r@ == s@,
        s@.len() == 0 || s@.contains(' ') || s@.contains('\t') || s@.contains('"') ==> r@.len() >= 2
            && r@[0] == '"' && r@.last() == '"',
        read_back(r@, false, 0) == s@,
{
    quoted_argument_is_read_back(s@, Seq::empty());
    assert(quoted(s@) + Seq::<char>::empty() =~= quoted(s@));
    if s@.len() > 0 && !s@.contains(' ') && !s@.contains('\t') && !s@.contains('"') {
        assert forall|i: int| 0 <= i < s@.len() implies !needs_quotes(#[trigger] s@[i]) by {
            assert(s@.contains(s@[i]));
        }
    }
    if s@.contains(' ') || s@.contains('\t') || s@.contains('"') {
        let i = choose|i: int| 0 <= i < s@.len() && needs_quotes(s@[i]);
        assert(needs_quotes(s@[i]));
        assert(!plain_arg(s@));
    }
}

/// The command line of a process is that of its program and arguments, and a process that is started
/// has a console of its own, is held where that is asked for, and inherits handles just where one of
/// its outputs is read.
pub proof fn process_is_started_as_asked(
    program: &str,
    args: &[String],
    line: String,
    suspend: bool,
    group: bool,
    out: bool,
    err: bool,
    flags: CreationFlags,
)
    requires
        call_ensures(command_line, (program, args), line),
        call_ensures(creation_flags, (suspend, group, out, err), flags),
    ensures
        line@ == line_of(program@, text::strs(args@)),
        flags.new_console && flags.unicode_environment,
        flags.suspended == suspend,
        flags.new_process_group == group,
        flags.inherit_handles <==> out || err,
{
}

} // verus!
