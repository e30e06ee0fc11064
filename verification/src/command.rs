//! Decoding one wire line into a command.  A line is whitespace-tokenized
//! after a trailing newline (and carriage return) is trimmed; the first
//! token, uppercased, selects the command, and the remaining tokens are
//! its arguments.  A `SET` value is the remainder of the line with its
//! spaces restored.

use vstd::prelude::*;
use crate::command_error::CommandError;
use crate::smirk_search_mode::SmirkSearchMode;
use crate::strutil::{lossy_utf8, lossy_decode, str_eq};
use crate::numtext::{parse_uint_in, parse_unsigned};

verus! {

/// One decoded client command.
#[derive(Debug)]
pub enum Command {
    /// `SET <type> <key> <value...>`: the tag, the key, and the raw value
    /// bytes.
    SetValue(String, String, Vec<u8>),
    /// `GET <type> <key>`.
    Get(String, String),
    /// `DEL <key> [<key>...]`.
    Del(Vec<String>),
    /// `KEYS <pattern>`.
    Keys(String),
    /// `MODE {GLOB|REGEX}`.
    Mode(SmirkSearchMode),
    /// `TTL <key>`: query the remaining seconds.
    TtlGet(String),
    /// `TTL <key> <seconds>` or `DELTTL <key>`: replace the TTL.
    TtlSet(String, Option<u64>),
    /// `EXISTS <key>`.
    Exists(String),
    /// `TYPE <key>`.
    Type(String),
    /// `ADD <type> <key> [<key>...]`.
    Add(String, Vec<String>),
    /// `QUIT`.
    Quit,
    /// `SAVE`.
    Save,
}

/// The line with one trailing newline, and a carriage return before it,
/// removed.
pub open spec fn trim_line(v: Seq<u8>) -> Seq<u8> {
    let a = if v.len() > 0 && v.last() == 10 {
        v.drop_last()
    } else {
        v
    };
    if a.len() > 0 && a.last() == 13 {
        a.drop_last()
    } else {
        a
    }
}

/// The tokens of `s` split on `sep`; empty tokens are kept, and there is
/// always at least one token.
pub open spec fn split_bytes(s: Seq<u8>, sep: u8) -> Seq<Seq<u8>>
    decreases s.len(),
{
    if s.len() == 0 {
        seq![Seq::<u8>::empty()]
    } else if s[0] == sep {
        seq![Seq::<u8>::empty()] + split_bytes(s.drop_first(), sep)
    } else {
        let rest = split_bytes(s.drop_first(), sep);
        seq![seq![s[0]] + rest[0]] + rest.drop_first()
    }
}

/// The tokens joined back with single separators: the exact byte
/// remainder they were split from.
pub open spec fn join_spaces(ts: Seq<Seq<u8>>) -> Seq<u8>
    decreases ts.len(),
{
    if ts.len() == 0 {
        Seq::empty()
    } else if ts.len() == 1 {
        ts[0]
    } else {
        join_spaces(ts.drop_last()) + seq![32u8] + ts.last()
    }
}

/// One byte mapped to its ASCII upper-case form.
pub open spec fn upper_byte(b: u8) -> u8 {
    if 97 <= b <= 122 {
        (b - 32) as u8
    } else {
        b
    }
}

/// The bytes mapped to their ASCII upper-case forms.
pub open spec fn upper_bytes(s: Seq<u8>) -> Seq<u8> {
    Seq::new(s.len(), |i: int| upper_byte(s[i]))
}

/// The tokens of the trimmed line.
pub open spec fn line_tokens(v: Seq<u8>) -> Seq<Seq<u8>> {
    split_bytes(trim_line(v), 32u8)
}

/// The command word: the first token, uppercased and decoded.
pub open spec fn cmd_word(v: Seq<u8>) -> Seq<char> {
    lossy_utf8(upper_bytes(line_tokens(v)[0]))
}

/// The command's arguments: every token after the first.
pub open spec fn cmd_args(v: Seq<u8>) -> Seq<Seq<u8>> {
    line_tokens(v).drop_first()
}

/// The views of a token list.
pub open spec fn tok_views(ts: Seq<Vec<u8>>) -> Seq<Seq<u8>> {
    ts.map_values(|t: Vec<u8>| t@)
}

/// A split has at least one token.
proof fn lemma_split_nonempty(s: Seq<u8>, sep: u8)
    ensures
        split_bytes(s, sep).len() >= 1,
    decreases s.len(),
{
    if s.len() == 0 {
    } else if s[0] == sep {
    } else {
        lemma_split_nonempty(s.drop_first(), sep);
    }
}

/// Splitting at the first separator: without one the whole string is the
/// only token; with one at `j`, the first token is what precedes it and
/// the rest is the split of what follows it.
proof fn lemma_split_first(s: Seq<u8>, sep: u8, j: int)
    requires
        0 <= j <= s.len(),
        forall|k: int| 0 <= k < j ==> s[k] != sep,
        j < s.len() ==> s[j] == sep,
    ensures
        j == s.len() ==> split_bytes(s, sep) == seq![s],
        j < s.len() ==> split_bytes(s, sep) == seq![s.take(j)] + split_bytes(
            s.skip(j + 1),
            sep,
        ),
    decreases s.len(),
{
    if s.len() == 0 {
        assert(s =~= Seq::<u8>::empty());
        assert(split_bytes(s, sep) =~= seq![s]);
    } else if j == 0 {
        if j < s.len() {
            assert(s.take(0) =~= Seq::<u8>::empty());
            assert(s.skip(1) =~= s.drop_first());
            assert(split_bytes(s, sep) =~= seq![s.take(0)] + split_bytes(s.skip(1), sep));
        }
    } else {
        assert(s[0] != sep);
        lemma_split_nonempty(s.drop_first(), sep);
        assert forall|k: int| 0 <= k < j - 1 implies s.drop_first()[k] != sep by {
            assert(s.drop_first()[k] == s[k + 1]);
        }
        lemma_split_first(s.drop_first(), sep, j - 1);
        let rest = split_bytes(s.drop_first(), sep);
        if j == s.len() {
            assert(rest == seq![s.drop_first()]);
            assert(seq![s[0]] + rest[0] =~= s);
            assert(rest.drop_first() =~= Seq::<Seq<u8>>::empty());
            assert(split_bytes(s, sep) =~= seq![s]);
        } else {
            assert(rest == seq![s.drop_first().take(j - 1)] + split_bytes(
                s.drop_first().skip(j),
                sep,
            ));
            assert(rest[0] == s.drop_first().take(j - 1));
            assert(seq![s[0]] + rest[0] =~= s.take(j));
            assert(s.drop_first().skip(j) =~= s.skip(j + 1));
            assert(rest.drop_first() =~= split_bytes(s.skip(j + 1), sep));
            assert(split_bytes(s, sep) =~= seq![s.take(j)] + split_bytes(s.skip(j + 1), sep));
        }
    }
}

/// The bytes of `v` from `a` (inclusive) to `b` (exclusive).
fn subvec(v: &Vec<u8>, a: usize, b: usize) -> (r: Vec<u8>)
    requires
        a <= b <= v@.len(),
    ensures
        r@ == v@.subrange(a as int, b as int),
{
    let mut out: Vec<u8> = Vec::new();
    let mut i: usize = a;
    while i < b
        invariant
            a <= i <= b <= v@.len(),
            out@ == v@.subrange(a as int, i as int),
        decreases b - i,
    {
        out.push(v[i]);
        proof {
            assert(out@ =~= v@.subrange(a as int, i as int + 1));
        }
        i = i + 1;
    }
    out
}

/// Splits `v` on single spaces, keeping empty tokens.
fn split_spaces(v: &Vec<u8>) -> (r: Vec<Vec<u8>>)
    ensures
        tok_views(r@) == split_bytes(v@, 32u8),
        r@.len() >= 1,
{
    let n = v.len();
    let mut out: Vec<Vec<u8>> = Vec::new();
    let mut start: usize = 0;
    let mut i: usize = 0;
    proof {
        assert(v@.skip(0) =~= v@);
        assert(tok_views(out@) =~= Seq::<Seq<u8>>::empty());
        assert(tok_views(out@) + split_bytes(v@, 32u8) =~= split_bytes(v@, 32u8));
    }
    while i < n
        invariant
            n == v@.len(),
            0 <= start <= i <= n,
            forall|k: int| start <= k < i ==> v@[k] != 32u8,
            tok_views(out@) + split_bytes(v@.skip(start as int), 32u8) == split_bytes(v@, 32u8),
        decreases n - i,
    {
        if v[i] == 32u8 {
            let t = subvec(v, start, i);
            out.push(t);
            proof {
                let s = v@.skip(start as int);
                assert forall|k: int| 0 <= k < i - start implies s[k] != 32u8 by {
                    assert(s[k] == v@[k + start]);
                }
                assert(s[i - start] == v@[i as int]);
                lemma_split_first(s, 32u8, i - start);
                assert(s.take(i - start) =~= v@.subrange(start as int, i as int));
                assert(s.skip(i - start + 1) =~= v@.skip(i as int + 1));
                assert(tok_views(out@) =~= tok_views(out@.drop_last()) + seq![v@.subrange(start as int, i as int)]);
                assert(tok_views(out@) + split_bytes(v@.skip(i as int + 1), 32u8) =~= split_bytes(
                    v@,
                    32u8,
                ));
            }
            start = i + 1;
        }
        i = i + 1;
    }
    let t = subvec(v, start, n);
    out.push(t);
    proof {
        let s = v@.skip(start as int);
        assert forall|k: int| 0 <= k < s.len() implies s[k] != 32u8 by {
            assert(s[k] == v@[k + start]);
        }
        lemma_split_first(s, 32u8, s.len() as int);
        assert(s =~= v@.subrange(start as int, n as int));
        assert(tok_views(out@) =~= tok_views(out@.drop_last()) + seq![s]);
        assert(tok_views(out@) =~= split_bytes(v@, 32u8));
    }
    out
}

/// Maps the bytes to ASCII upper case.
fn upper_vec(v: &Vec<u8>) -> (r: Vec<u8>)
    ensures
        r@ == upper_bytes(v@),
{
    let n = v.len();
    let mut out: Vec<u8> = Vec::new();
    let mut i: usize = 0;
    while i < n
        invariant
            n == v@.len(),
            0 <= i <= n,
            out@.len() == i,
            forall|k: int| 0 <= k < i ==> out@[k] == upper_byte(v@[k]),
        decreases n - i,
    {
        let b = v[i];
        if 97 <= b && b <= 122 {
            out.push(b - 32);
        } else {
            out.push(b);
        }
        i = i + 1;
    }
    proof {
        assert(out@ =~= upper_bytes(v@));
    }
    out
}

/// Joins the tokens from index `from` on with single spaces.
fn join_from(tokens: &Vec<Vec<u8>>, from: usize) -> (r: Vec<u8>)
    requires
        from <= tokens@.len(),
    ensures
        r@ == join_spaces(tok_views(tokens@).skip(from as int)),
{
    let ghost ts = tok_views(tokens@).skip(from as int);
    let n = tokens.len();
    let mut out: Vec<u8> = Vec::new();
    let mut i: usize = from;
    proof {
        assert(ts.take(0) =~= Seq::<Seq<u8>>::empty());
    }
    while i < n
        invariant
            from <= i <= n,
            n == tokens@.len(),
            ts == tok_views(tokens@).skip(from as int),
            out@ == join_spaces(ts.take(i - from)),
        decreases n - i,
    {
        if i > from {
            out.push(32u8);
        }
        let t = &tokens[i];
        let m = t.len();
        let mut j: usize = 0;
        let ghost mid = out@;
        while j < m
            invariant
                0 <= j <= m,
                m == t@.len(),
                out@ == mid + t@.subrange(0, j as int),
            decreases m - j,
        {
            out.push(t[j]);
            proof {
                assert(out@ =~= mid + t@.subrange(0, j as int + 1));
            }
            j = j + 1;
        }
        proof {
            assert(t@.subrange(0, m as int) =~= t@);
            assert(ts.take(i - from + 1).drop_last() =~= ts.take(i - from));
            assert(ts.take(i - from + 1).last() == ts[i - from]);
            assert(ts[i - from] == tokens@[i as int]@);
            if i == from {
                assert(join_spaces(ts.take(1)) == ts[0]);
                assert(out@ =~= join_spaces(ts.take(i - from + 1)));
            } else {
                assert(out@ =~= join_spaces(ts.take(i - from)) + seq![32u8] + ts[i - from]);
                assert(out@ =~= join_spaces(ts.take(i - from + 1)));
            }
        }
        i = i + 1;
    }
    proof {
        assert(ts.take(n - from) =~= ts);
    }
    out
}

impl Command {
    /// Decodes one wire line: trims a trailing newline, tokenizes on
    /// spaces, uppercases the first token to select the command, and
    /// checks its argument count; a `SET` value is the remainder of the
    /// line rejoined, and `TTL` seconds must parse as a non-negative
    /// count.
    pub fn from_vec(v: Vec<u8>) -> (r: Result<Command, CommandError>)
        ensures
            ({
                let w = cmd_word(v@);
                let args = cmd_args(v@);
                &&& (w == "SET"@ && args.len() >= 3 ==> (r matches Ok(c) && c matches Command::SetValue(
                    t,
                    k,
                    val,
                ) && t@ == lossy_utf8(args[0]) && k@ == lossy_utf8(args[1]) && val@ == join_spaces(
                    args.skip(2),
                )))
                &&& (w == "SET"@ && args.len() < 3 ==> (r matches Err(e) && e
                    == CommandError::ArgumentMismatch))
                &&& (w == "GET"@ && args.len() == 2 ==> (r matches Ok(c) && c matches Command::Get(
                    t,
                    k,
                ) && t@ == lossy_utf8(args[0]) && k@ == lossy_utf8(args[1])))
                &&& (w == "GET"@ && args.len() != 2 ==> (r matches Err(e) && e
                    == CommandError::ArgumentMismatch))
                &&& (w == "DEL"@ && args.len() >= 1 ==> (r matches Ok(c) && c matches Command::Del(
                    ks,
                ) && ks@.len() == args.len() && forall|i: int|
                    0 <= i < args.len() ==> (#[trigger] ks@[i])@ == lossy_utf8(args[i])))
                &&& (w == "DEL"@ && args.len() == 0 ==> (r matches Err(e) && e
                    == CommandError::ArgumentMismatch))
                &&& (w == "KEYS"@ && args.len() == 1 ==> (r matches Ok(c) && c matches
                    Command::Keys(p) && p@ == lossy_utf8(args[0])))
                &&& (w == "KEYS"@ && args.len() != 1 ==> (r matches Err(e) && e
                    == CommandError::ArgumentMismatch))
                &&& (w == "MODE"@ && args.len() == 1 ==> ({
                    let m = lossy_utf8(upper_bytes(args[0]));
                    &&& (m == "GLOB"@ ==> r == Ok::<Command, CommandError>(
                        Command::Mode(SmirkSearchMode::Glob),
                    ))
                    &&& (m == "REGEX"@ ==> r == Ok::<Command, CommandError>(
                        Command::Mode(SmirkSearchMode::Regex),
                    ))
                    &&& (m != "GLOB"@ && m != "REGEX"@ ==> (r matches Err(e) && e
                        == CommandError::NoValidModeSpecified))
                }))
                &&& (w == "MODE"@ && args.len() != 1 ==> (r matches Err(e) && e
                    == CommandError::ArgumentMismatch))
                &&& (w == "TTL"@ && args.len() == 1 ==> (r matches Ok(c) && c matches
                    Command::TtlGet(k) && k@ == lossy_utf8(args[0])))
                &&& (w == "TTL"@ && args.len() == 2 ==> ({
                    let p = parse_uint_in(lossy_utf8(args[1]), u64::MAX as int);
                    &&& (p matches Some(n) ==> (r matches Ok(c) && c matches Command::TtlSet(k, o)
                        && k@ == lossy_utf8(args[0]) && o == Some(n as u64)))
                    &&& (p is None ==> (r matches Err(e) && e
                        == CommandError::InvalidTtlSpecified))
                }))
                &&& (w == "TTL"@ && args.len() > 2 ==> (r matches Err(e) && e
                    == CommandError::ArgumentMismatch))
                &&& (w == "TTL"@ && args.len() == 0 ==> (r matches Err(e) && e
                    == CommandError::ArgumentMismatch))
                &&& (w == "DELTTL"@ && args.len() == 1 ==> (r matches Ok(c) && c matches
                    Command::TtlSet(k, o) && k@ == lossy_utf8(args[0]) && o is None))
                &&& (w == "DELTTL"@ && args.len() != 1 ==> (r matches Err(e) && e
                    == CommandError::ArgumentMismatch))
                &&& (w == "EXISTS"@ && args.len() == 1 ==> (r matches Ok(c) && c matches
                    Command::Exists(k) && k@ == lossy_utf8(args[0])))
                &&& (w == "EXISTS"@ && args.len() != 1 ==> (r matches Err(e) && e
                    == CommandError::ArgumentMismatch))
                &&& (w == "TYPE"@ && args.len() == 1 ==> (r matches Ok(c) && c matches
                    Command::Type(k) && k@ == lossy_utf8(args[0])))
                &&& (w == "TYPE"@ && args.len() != 1 ==> (r matches Err(e) && e
                    == CommandError::ArgumentMismatch))
                &&& (w == "ADD"@ && args.len() >= 2 ==> (r matches Ok(c) && c matches Command::Add(
                    t,
                    ks,
                ) && t@ == lossy_utf8(args[0]) && ks@.len() == args.len() - 1 && forall|i: int|
                    0 <= i < args.len() - 1 ==> (#[trigger] ks@[i])@ == lossy_utf8(args[i + 1])))
                &&& (w == "ADD"@ && args.len() < 2 ==> (r matches Err(e) && e
                    == CommandError::ArgumentMismatch))
                &&& (w == "QUIT"@ ==> r == Ok::<Command, CommandError>(Command::Quit))
                &&& (w == "SAVE"@ ==> r == Ok::<Command, CommandError>(Command::Save))
                &&& (!(w == "SET"@ || w == "GET"@ || w == "DEL"@ || w == "KEYS"@ || w == "MODE"@
                    || w == "TTL"@ || w == "DELTTL"@ || w == "EXISTS"@ || w == "TYPE"@ || w
                    == "ADD"@ || w == "QUIT"@ || w == "SAVE"@) ==> (r matches Err(e) && e
                    == CommandError::Unknown))
            }),
    {
        proof {
            reveal_strlit("SET");
            reveal_strlit("GET");
            reveal_strlit("DEL");
            reveal_strlit("KEYS");
            reveal_strlit("MODE");
            reveal_strlit("TTL");
            reveal_strlit("DELTTL");
            reveal_strlit("EXISTS");
            reveal_strlit("TYPE");
            reveal_strlit("ADD");
            reveal_strlit("QUIT");
            reveal_strlit("SAVE");
            reveal_strlit("GLOB");
            reveal_strlit("REGEX");
        }
        let mut work = v;
        if work.len() > 0 && work[work.len() - 1] == 10 {
            work.pop();
        }
        if work.len() > 0 && work[work.len() - 1] == 13 {
            work.pop();
        }
        proof {
            assert(work@ == trim_line(v@));
        }
        let tokens = split_spaces(&work);
        let ghost args = cmd_args(v@);
        proof {
            assert(tokens@[0]@ == line_tokens(v@)[0]);
            assert forall|i: int| 1 <= i < tokens@.len() implies (#[trigger] tokens@[i])@ == args[i
                - 1] by {
                assert(tok_views(tokens@)[i] == tokens@[i]@);
            }
            assert(args.len() == tokens@.len() - 1);
        }
        let up = upper_vec(&tokens[0]);
        let cmd = lossy_decode(up.as_slice());
        let nargs = tokens.len() - 1;
        proof {
            assert("SET"@.len() == 3 && "SET"@[0] == 'S');
            assert("GET"@.len() == 3 && "GET"@[0] == 'G');
            assert("DEL"@.len() == 3 && "DEL"@[0] == 'D');
            assert("KEYS"@.len() == 4 && "KEYS"@[0] == 'K');
            assert("MODE"@.len() == 4 && "MODE"@[0] == 'M');
            assert("TTL"@.len() == 3 && "TTL"@[0] == 'T');
            assert("DELTTL"@.len() == 6 && "DELTTL"@[0] == 'D');
            assert("EXISTS"@.len() == 6 && "EXISTS"@[0] == 'E');
            assert("TYPE"@.len() == 4 && "TYPE"@[0] == 'T');
            assert("ADD"@.len() == 3 && "ADD"@[0] == 'A');
            assert("QUIT"@.len() == 4 && "QUIT"@[0] == 'Q');
            assert("SAVE"@.len() == 4 && "SAVE"@[0] == 'S');
            assert("GLOB"@.len() == 4 && "REGEX"@.len() == 5);
            assert(cmd@ == cmd_word(v@));
            assert(nargs == cmd_args(v@).len());
        }
        if str_eq(cmd.as_str(), "SET") {
            if nargs < 3 {
                return Err(CommandError::ArgumentMismatch);
            }
            let t = lossy_decode(tokens[1].as_slice());
            let k = lossy_decode(tokens[2].as_slice());
            let data = join_from(&tokens, 3);
            proof {
                assert(tok_views(tokens@).skip(3) =~= args.skip(2));
            }
            Ok(Command::SetValue(t, k, data))
        } else if str_eq(cmd.as_str(), "GET") {
            if nargs != 2 {
                return Err(CommandError::ArgumentMismatch);
            }
            Ok(
                Command::Get(
                    lossy_decode(tokens[1].as_slice()),
                    lossy_decode(tokens[2].as_slice()),
                ),
            )
        } else if str_eq(cmd.as_str(), "DEL") {
            if nargs == 0 {
                return Err(CommandError::ArgumentMismatch);
            }
            let mut ks: Vec<String> = Vec::new();
            let mut i: usize = 1;
            let n = tokens.len();
            while i < n
                invariant
                    1 <= i <= n,
                    n == tokens@.len(),
                    args == cmd_args(v@),
                    args.len() == n - 1,
                    forall|x: int| 1 <= x < n ==> (#[trigger] tokens@[x])@ == args[x - 1],
                    ks@.len() == i - 1,
                    forall|x: int| 0 <= x < i - 1 ==> (#[trigger] ks@[x])@ == lossy_utf8(args[x]),
                decreases n - i,
            {
                ks.push(lossy_decode(tokens[i].as_slice()));
                i = i + 1;
            }
            Ok(Command::Del(ks))
        } else if str_eq(cmd.as_str(), "KEYS") {
            if nargs != 1 {
                return Err(CommandError::ArgumentMismatch);
            }
            Ok(Command::Keys(lossy_decode(tokens[1].as_slice())))
        } else if str_eq(cmd.as_str(), "MODE") {
            if nargs != 1 {
                return Err(CommandError::ArgumentMismatch);
            }
            let mup = upper_vec(&tokens[1]);
            let mode = lossy_decode(mup.as_slice());
            if str_eq(mode.as_str(), "GLOB") {
                Ok(Command::Mode(SmirkSearchMode::Glob))
            } else if str_eq(mode.as_str(), "REGEX") {
                Ok(Command::Mode(SmirkSearchMode::Regex))
            } else {
                Err(CommandError::NoValidModeSpecified)
            }
        } else if str_eq(cmd.as_str(), "TTL") {
            if nargs == 1 {
                Ok(Command::TtlGet(lossy_decode(tokens[1].as_slice())))
            } else if nargs == 2 {
                let secs_text = lossy_decode(tokens[2].as_slice());
                match parse_unsigned(secs_text.as_str(), u64::MAX as u128) {
                    Some(n) => Ok(
                        Command::TtlSet(lossy_decode(tokens[1].as_slice()), Some(n as u64)),
                    ),
                    None => Err(CommandError::InvalidTtlSpecified),
                }
            } else {
                Err(CommandError::ArgumentMismatch)
            }
        } else if str_eq(cmd.as_str(), "DELTTL") {
            if nargs != 1 {
                return Err(CommandError::ArgumentMismatch);
            }
            Ok(Command::TtlSet(lossy_decode(tokens[1].as_slice()), None))
        } else if str_eq(cmd.as_str(), "EXISTS") {
            if nargs != 1 {
                return Err(CommandError::ArgumentMismatch);
            }
            Ok(Command::Exists(lossy_decode(tokens[1].as_slice())))
        } else if str_eq(cmd.as_str(), "TYPE") {
            if nargs != 1 {
                return Err(CommandError::ArgumentMismatch);
            }
            Ok(Command::Type(lossy_decode(tokens[1].as_slice())))
        } else if str_eq(cmd.as_str(), "ADD") {
            if nargs < 2 {
                return Err(CommandError::ArgumentMismatch);
            }
            let t = lossy_decode(tokens[1].as_slice());
            let mut ks: Vec<String> = Vec::new();
            let mut i: usize = 2;
            let n = tokens.len();
            while i < n
                invariant
                    2 <= i <= n,
                    n == tokens@.len(),
                    args == cmd_args(v@),
                    args.len() == n - 1,
                    forall|x: int| 1 <= x < n ==> (#[trigger] tokens@[x])@ == args[x - 1],
                    ks@.len() == i - 2,
                    forall|x: int|
                        0 <= x < i - 2 ==> (#[trigger] ks@[x])@ == lossy_utf8(args[x + 1]),
                decreases n - i,
            {
                ks.push(lossy_decode(tokens[i].as_slice()));
                i = i + 1;
            }
            Ok(Command::Add(t, ks))
        } else if str_eq(cmd.as_str(), "QUIT") {
            Ok(Command::Quit)
        } else if str_eq(cmd.as_str(), "SAVE") {
            Ok(Command::Save)
        } else {
            Err(CommandError::Unknown)
        }
    }
}

} // verus!
