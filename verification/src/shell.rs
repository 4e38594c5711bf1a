use vstd::prelude::*;
use vstd::string::StringSliceAdditionalSpecFns;

use crate::bytes::append_bytes;

verus! {

/// The byte that separates the arguments of a command.
pub const SPACE: u8 = 0x20;

/// The byte that ends a line of output.
pub const NEWLINE: u8 = 0x0a;

/// The most arguments that the shell takes in one command.
pub const MAX_ARGS: usize = 64;

/// The name of the command that prints its arguments.
pub const ECHO: &'static str = "echo";

/// What the shell prints before the name of a command it does not know.
pub const UNKNOWN_COMMAND: &'static str = "unknown command: ";

/// What the shell prints for a command with more arguments than it takes.
pub const TOO_MANY_ARGS: &'static str = "error: too many arguments";

/// Error type for `Command` parse failures.
#[derive(Debug, Clone, Copy, PartialEq, Eq, Structural)]
pub enum Error {
    Empty,
    TooManyArgs,
}

/// The arguments of `s`: its maximal runs of bytes other than a space, in
/// order.
pub open spec fn split_args(s: Seq<u8>) -> Seq<Seq<u8>>
    decreases s.len(),
{
    if s.len() == 0 {
        Seq::empty()
    } else {
        let prev = split_args(s.drop_last());
        let c = s.last();
        if c == SPACE {
            prev
        } else if s.len() >= 2 && s[s.len() - 2] != SPACE {
            prev.update(prev.len() - 1, prev.last().push(c))
        } else {
            prev.push(seq![c])
        }
    }
}

/// The views of the byte vectors of `v`.
pub open spec fn views(v: Seq<Vec<u8>>) -> Seq<Seq<u8>> {
    Seq::new(v.len(), |i: int| v[i]@)
}

/// A structure representing a single shell command.
pub struct Command {
    args: Vec<Vec<u8>>,
}

impl Command {
    #[verifier::type_invariant]
    spec fn has_path(&self) -> bool {
        self.args.len() > 0
    }

    /// This command's arguments, the first being its path.
    pub closed spec fn spec_args(&self) -> Seq<Seq<u8>> {
        views(self.args@)
    }

    /// What parsing `s` with room for `capacity` arguments gives.
    pub open spec fn parse_result(s: Seq<u8>, capacity: nat, r: Result<Command, Error>) -> bool {
        let args = split_args(s);
        if args.len() > capacity {
            r == Err::<Command, Error>(Error::TooManyArgs)
        } else if args.len() == 0 {
            r == Err::<Command, Error>(Error::Empty)
        } else {
            r matches Ok(c) && c.spec_args() == args
        }
    }

    /// Returns this command's arguments.
    pub fn args(&self) -> (args: &Vec<Vec<u8>>)
        ensures
            views(args@) == self.spec_args(),
            args@.len() > 0,
    {
        proof {
            use_type_invariant(self);
        }
        &self.args
    }

    /// Returns this command's path. This is equivalent to the first argument.
    pub fn path(&self) -> (path: &Vec<u8>)
        ensures
            path@ == self.spec_args()[0],
    {
        proof {
            use_type_invariant(self);
        }
        &self.args[0]
    }

    /// Parse a command from `s`, taking at most `capacity` arguments.
    ///
    /// # Errors
    ///
    /// If `s` contains no arguments, returns `Error::Empty`. If there are more
    /// arguments than `capacity`, returns `Error::TooManyArgs`.
    pub fn parse(s: &[u8], capacity: usize) -> (r: Result<Command, Error>)
        ensures
            Self::parse_result(s@, capacity as nat, r),
    {
        let n = s.len();
        let mut args: Vec<Vec<u8>> = Vec::new();
        let mut cur: Vec<u8> = Vec::new();
        let mut i: usize = 0;
        while i < n
            invariant
                n == s@.len(),
                i <= n,
                args.len() <= capacity,
                cur.len() > 0 <==> (i > 0 && s@[i - 1] != SPACE),
                split_args(s@.take(i as int)) == if cur.len() > 0 {
                    views(args@).push(cur@)
                } else {
                    views(args@)
                },
            decreases n - i,
        {
            let c = s[i];
            proof {
                assert(s@.take(i + 1).drop_last() =~= s@.take(i as int));
                lemma_split_args_len_monotone(s@, i as int, n as int);
                assert(s@.take(n as int) =~= s@);
            }
            if c == SPACE {
                if cur.len() > 0 {
                    if args.len() == capacity {
                        return Err(Error::TooManyArgs);
                    }
                    let ghost before = args@;
                    let word = cur;
                    args.push(word);
                    cur = Vec::new();
                    proof {
                        assert(views(args@) =~= views(before).push(args@.last()@));
                    }
                }
            } else {
                let ghost had = cur@;
                cur.push(c);
                proof {
                    if had.len() > 0 {
                        assert(views(args@).push(cur@) =~= views(args@).push(had).update(views(args@).len() as int, had.push(c)));
                    } else {
                        assert(cur@ =~= seq![c]);
                    }
                }
            }
            i = i + 1;
        }
        proof {
            assert(s@.take(n as int) =~= s@);
        }
        if cur.len() > 0 {
            if args.len() == capacity {
                return Err(Error::TooManyArgs);
            }
            let ghost before = args@;
            args.push(cur);
            proof {
                assert(views(args@) =~= views(before).push(args@.last()@));
            }
        }
        if args.len() == 0 {
            return Err(Error::Empty);
        }
        Ok(Command { args })
    }
}

/// The arguments `args` written one after the other, a space between two.
pub open spec fn join_args(args: Seq<Seq<u8>>) -> Seq<u8>
    decreases args.len(),
{
    if args.len() == 0 {
        Seq::empty()
    } else if args.len() == 1 {
        args[0]
    } else {
        join_args(args.drop_last()) + seq![SPACE] + args.last()
    }
}

/// What `echo` prints for a command with arguments `args`: all but the
/// first, separated by spaces, and a newline.
pub open spec fn echo_output(args: Seq<Seq<u8>>) -> Seq<u8> {
    join_args(args.skip(1)) + seq![NEWLINE]
}

/// What the shell prints in answer to the line `line`.
pub open spec fn response(line: Seq<u8>) -> Seq<u8> {
    let args = split_args(line);
    if args.len() > MAX_ARGS {
        TOO_MANY_ARGS.spec_bytes() + seq![NEWLINE]
    } else if args.len() == 0 {
        Seq::empty()
    } else if args[0] == ECHO.spec_bytes() {
        echo_output(args)
    } else {
        UNKNOWN_COMMAND.spec_bytes() + args[0] + seq![NEWLINE]
    }
}

/// Returns what `echo` prints for `command`: its arguments after the first,
/// separated by spaces, then a newline.
pub fn echo(command: &Command) -> (out: Vec<u8>)
    ensures
        out@ == echo_output(command.spec_args()),
{
    let args = command.args();
    let n = args.len();
    let mut out: Vec<u8> = Vec::new();
    if n > 1 {
        append_bytes(&mut out, args[1].as_slice());
        let mut i: usize = 2;
        proof {
            assert(command.spec_args().subrange(1, 2) =~= seq![command.spec_args()[1]]);
        }
        while i < n
            invariant
                n == command.spec_args().len(),
                args@.len() == n,
                forall|j: int| 0 <= j < n ==> (#[trigger] args@[j])@ == command.spec_args()[j],
                2 <= i <= n,
                out@ == join_args(command.spec_args().subrange(1, i as int)),
            decreases n - i,
        {
            out.push(SPACE);
            append_bytes(&mut out, args[i].as_slice());
            proof {
                let a = command.spec_args();
                assert(a.subrange(1, i + 1).drop_last() =~= a.subrange(1, i as int));
            }
            i = i + 1;
        }
        proof {
            assert(command.spec_args().subrange(1, n as int) =~= command.spec_args().skip(1));
        }
    } else {
        proof {
            assert(command.spec_args().skip(1) =~= Seq::<Seq<u8>>::empty());
        }
    }
    out.push(NEWLINE);
    out
}

/// Whether `a` and `b` hold the same bytes.
fn same_bytes(a: &[u8], b: &[u8]) -> (r: bool)
    ensures
        r == (a@ == b@),
{
    let n = a.len();
    if n != b.len() {
        return false;
    }
    let mut i: usize = 0;
    while i < n
        invariant
            n == a@.len(),
            n == b@.len(),
            i <= n,
            forall|j: int| 0 <= j < i ==> a@[j] == b@[j],
        decreases n - i,
    {
        if a[i] != b[i] {
            return false;
        }
        i = i + 1;
    }
    assert(a@ =~= b@);
    true
}

/// Returns what the shell prints in answer to the line `line`: the output of
/// `echo` for an echo command, an error for an unknown command or one with
/// too many arguments, and nothing for an empty line.
pub fn respond(line: &[u8]) -> (out: Vec<u8>)
    ensures
        out@ == response(line@),
{
    let mut out: Vec<u8> = Vec::new();
    match Command::parse(line, MAX_ARGS) {
        Ok(command) => {
            let path = command.path();
            if same_bytes(path.as_slice(), ECHO.as_bytes()) {
                out = echo(&command);
            } else {
                append_bytes(&mut out, UNKNOWN_COMMAND.as_bytes());
                append_bytes(&mut out, path.as_slice());
                out.push(NEWLINE);
            }
        },
        Err(Error::Empty) => {},
        Err(Error::TooManyArgs) => {
            append_bytes(&mut out, TOO_MANY_ARGS.as_bytes());
            out.push(NEWLINE);
        },
    }
    out
}

/// Each argument of `s` is a non-empty run of bytes of `s` with no space
/// in it.
pub proof fn lemma_split_args_are_words(s: Seq<u8>)
    ensures
        forall|k: int| 0 <= k < split_args(s).len() ==> {
            &&& (#[trigger] split_args(s)[k]).len() > 0
            &&& forall|j: int| 0 <= j < split_args(s)[k].len() ==> split_args(s)[k][j] != SPACE
        },
    decreases s.len(),
{
    if s.len() > 0 {
        lemma_split_args_are_words(s.drop_last());
        let prev = split_args(s.drop_last());
        let c = s.last();
        if c != SPACE && s.len() >= 2 && s[s.len() - 2] != SPACE {
            lemma_split_args_nonempty_after_word(s.drop_last());
            let last = prev.last().push(c);
            assert forall|j: int| 0 <= j < last.len() implies last[j] != SPACE by {
                if j < prev.last().len() {
                    assert(prev[prev.len() - 1][j] != SPACE);
                }
            }
        }
    }
}

/// A sequence that ends with a byte other than a space has an argument.
proof fn lemma_split_args_nonempty_after_word(s: Seq<u8>)
    requires
        s.len() > 0,
        s.last() != SPACE,
    ensures
        split_args(s).len() > 0,
    decreases s.len(),
{
    if s.len() >= 2 && s[s.len() - 2] != SPACE {
        lemma_split_args_nonempty_after_word(s.drop_last());
    }
}

/// A space between two lines splits them apart: the arguments of
/// `a`, a space and `b` are those of `a` followed by those of `b`.
pub proof fn lemma_split_args_append(a: Seq<u8>, b: Seq<u8>)
    ensures
        split_args(a + seq![0x20u8] + b) == split_args(a) + split_args(b),
    decreases b.len(),
{
    let s = a + seq![0x20u8] + b;
    if b.len() == 0 {
        assert(s.drop_last() =~= a);
        assert(split_args(b) =~= Seq::<Seq<u8>>::empty());
        assert(split_args(a) + split_args(b) =~= split_args(a));
    } else {
        let b1 = b.drop_last();
        let c = b.last();
        lemma_split_args_append(a, b1);
        assert(s.drop_last() =~= a + seq![0x20u8] + b1);
        assert(s.last() == c);
        let x = split_args(a);
        let y = split_args(b1);
        if c == SPACE {
            assert(split_args(b) == y);
        } else if b1.len() >= 1 && b1.last() != SPACE {
            assert(s[s.len() - 2] == b1.last());
            assert(b[b.len() - 2] == b1.last());
            lemma_split_args_nonempty_after_word(b1);
            let v = (x + y).last().push(c);
            assert((x + y).last() == y.last());
            assert((x + y).update((x + y).len() - 1, v) =~= x + y.update(y.len() - 1, v));
        } else {
            if b1.len() >= 1 {
                assert(b[b.len() - 2] == SPACE);
            } else {
                assert(y =~= Seq::<Seq<u8>>::empty());
            }
            assert(s[s.len() - 2] == SPACE);
            assert((x + y).push(seq![c]) =~= x + y.push(seq![c]));
        }
    }
}

/// A non-empty run of bytes with no space in it is one argument.
pub proof fn lemma_split_args_word(w: Seq<u8>)
    requires
        w.len() > 0,
        forall|i: int| 0 <= i < w.len() ==> w[i] != 0x20u8,
    ensures
        split_args(w) == seq![w],
    decreases w.len(),
{
    if w.len() == 1 {
        assert(split_args(w.drop_last()) =~= Seq::<Seq<u8>>::empty());
        assert(seq![w.last()] =~= w);
    } else {
        let w1 = w.drop_last();
        lemma_split_args_word(w1);
        assert(w[w.len() - 2] == w1.last());
        assert(w1.push(w.last()) =~= w);
        assert(seq![w1].update(0, w1.push(w.last())) =~= seq![w]);
    }
}

/// Words joined with single spaces split back into the same words.
pub proof fn lemma_split_join(ws: Seq<Seq<u8>>)
    requires
        forall|k: int| 0 <= k < ws.len() ==> (#[trigger] ws[k]).len() > 0,
        forall|k: int, i: int| 0 <= k < ws.len() && 0 <= i < ws[k].len() ==> #[trigger] ws[k][i] != 0x20u8,
    ensures
        split_args(join_args(ws)) == ws,
    decreases ws.len(),
{
    if ws.len() == 0 {
        assert(split_args(join_args(ws)) =~= ws);
    } else if ws.len() == 1 {
        assert(ws[0].len() > 0);
        assert forall|i: int| 0 <= i < ws[0].len() implies ws[0][i] != 0x20u8 by {
            assert(ws[0][i] != 0x20u8);
        }
        lemma_split_args_word(ws[0]);
        assert(seq![ws[0]] =~= ws);
    } else {
        let pre = ws.drop_last();
        let w = ws.last();
        assert forall|k: int| 0 <= k < pre.len() implies (#[trigger] pre[k]).len() > 0 by {
            assert(ws[k].len() > 0);
        }
        assert forall|k: int, i: int| 0 <= k < pre.len() && 0 <= i < pre[k].len() implies #[trigger] pre[k][i] != 0x20u8 by {
            assert(ws[k][i] != 0x20u8);
        }
        lemma_split_join(pre);
        assert(w.len() > 0);
        assert forall|i: int| 0 <= i < w.len() implies w[i] != 0x20u8 by {
            assert(ws[ws.len() - 1][i] != 0x20u8);
        }
        lemma_split_args_word(w);
        lemma_split_args_append(join_args(pre), w);
        assert(pre + seq![w] =~= ws);
    }
}

/// `echo` prints back its arguments: the line `echo w1 ... wn`, of fewer
/// than 64 words written with single spaces, is answered with `w1 ... wn`
/// and a newline.
pub proof fn lemma_echo_prints_arguments(ws: Seq<Seq<u8>>)
    requires
        ws.len() < 64,
        forall|k: int| 0 <= k < ws.len() ==> (#[trigger] ws[k]).len() > 0,
        forall|k: int, i: int| 0 <= k < ws.len() && 0 <= i < ws[k].len() ==> #[trigger] ws[k][i] != 0x20u8,
    ensures
        response(seq![0x65u8, 0x63u8, 0x68u8, 0x6fu8] + seq![0x20u8] + join_args(ws)) == join_args(ws) + seq![0x0au8],
{
    let echo = seq![0x65u8, 0x63u8, 0x68u8, 0x6fu8];
    reveal_strlit("echo");
    vstd::string::is_ascii_spec_bytes(ECHO);
    assert(ECHO.spec_bytes() =~= echo);
    lemma_split_join(ws);
    lemma_split_args_word(echo);
    lemma_split_args_append(echo, join_args(ws));
    let args = seq![echo] + ws;
    assert(args.skip(1) =~= ws);
    assert(args[0] == echo);
}

/// A command other than `echo` is answered with "unknown command: ", its
/// name and a newline, whatever its arguments.
pub proof fn lemma_unknown_command(w: Seq<u8>, ws: Seq<Seq<u8>>)
    requires
        w.len() > 0,
        forall|i: int| 0 <= i < w.len() ==> w[i] != 0x20u8,
        w != seq![0x65u8, 0x63u8, 0x68u8, 0x6fu8],
        ws.len() < 64,
        forall|k: int| 0 <= k < ws.len() ==> (#[trigger] ws[k]).len() > 0,
        forall|k: int, i: int| 0 <= k < ws.len() && 0 <= i < ws[k].len() ==> #[trigger] ws[k][i] != 0x20u8,
    ensures
        response(w + seq![0x20u8] + join_args(ws)) == "unknown command: ".spec_bytes() + w + seq![0x0au8],
{
    reveal_strlit("echo");
    vstd::string::is_ascii_spec_bytes(ECHO);
    assert(ECHO.spec_bytes() =~= seq![0x65u8, 0x63u8, 0x68u8, 0x6fu8]);
    lemma_split_join(ws);
    lemma_split_args_word(w);
    lemma_split_args_append(w, join_args(ws));
    assert((seq![w] + ws)[0] == w);
}

/// A line of more than 64 words is refused with "error: too many
/// arguments" and a newline.
pub proof fn lemma_too_many_arguments(ws: Seq<Seq<u8>>)
    requires
        ws.len() > 64,
        forall|k: int| 0 <= k < ws.len() ==> (#[trigger] ws[k]).len() > 0,
        forall|k: int, i: int| 0 <= k < ws.len() && 0 <= i < ws[k].len() ==> #[trigger] ws[k][i] != 0x20u8,
    ensures
        response(join_args(ws)) == "error: too many arguments".spec_bytes() + seq![0x0au8],
{
    lemma_split_join(ws);
}

/// A longer prefix of `s` has at least as many arguments.
pub proof fn lemma_split_args_len_monotone(s: Seq<u8>, i: int, j: int)
    requires
        0 <= i <= j <= s.len(),
    ensures
        split_args(s.take(i)).len() <= split_args(s.take(j)).len(),
    decreases j - i,
{
    if i < j {
        lemma_split_args_len_monotone(s, i, j - 1);
        assert(s.take(j).drop_last() =~= s.take(j - 1));
    }
}

} // verus!
