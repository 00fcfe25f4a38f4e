//! The launcher's decision logic: building the shell command that sources
//! a definition file and replaces the process with the target program,
//! quoting arguments against re-splitting, choosing the launch mode, and
//! mapping launch failures to exit codes. Running the command is the
//! caller's business.

use vstd::prelude::*;

use crate::parse::{split_first_eq, split_first_line, split_lines_spec};
use crate::strutil::{find_char, lemma_first_pos};

verus! {

/// `s` with every single quote replaced by the sequence that closes a
/// quoted string, emits an escaped quote, and reopens it.
pub open spec fn quote_escaped(s: Seq<char>) -> Seq<char>
    decreases s.len(),
{
    if s.len() == 0 {
        Seq::empty()
    } else {
        let head = if s[0] == '\'' {
            seq!['\'', '\\', '\'', '\'']
        } else {
            seq![s[0]]
        };
        head + quote_escaped(s.drop_first())
    }
}

/// `s` wrapped in single quotes, inner single quotes escaped: under shell
/// word-splitting the result is one word denoting exactly `s`.
pub open spec fn shell_quoted(s: Seq<char>) -> Seq<char> {
    seq!['\''] + quote_escaped(s) + seq!['\'']
}

/// Escaping distributes over concatenation.
proof fn lemma_quote_escaped_concat(a: Seq<char>, b: Seq<char>)
    ensures
        quote_escaped(a + b) == quote_escaped(a) + quote_escaped(b),
    decreases a.len(),
{
    if a.len() == 0 {
        assert(a + b =~= b);
        assert(quote_escaped(a) + quote_escaped(b) =~= quote_escaped(b));
    } else {
        assert((a + b).drop_first() =~= a.drop_first() + b);
        lemma_quote_escaped_concat(a.drop_first(), b);
        assert(quote_escaped(a + b) =~= quote_escaped(a) + quote_escaped(b));
    }
}

/// Text without single quotes is unchanged by escaping.
proof fn lemma_quote_escaped_plain(s: Seq<char>)
    requires
        forall|i: int| 0 <= i < s.len() ==> s[i] != '\'',
    ensures
        quote_escaped(s) == s,
    decreases s.len(),
{
    if s.len() > 0 {
        lemma_quote_escaped_plain(s.drop_first());
        assert(quote_escaped(s) =~= s);
    }
}

/// Quote `s` for the shell: wrap it in single quotes and escape the
/// single quotes it contains.
pub fn shell_quote(s: &str) -> (r: String)
    ensures
        r@ == shell_quoted(s@),
{
    let len = s.unicode_len();
    let mut out = String::from_str("'");
    proof {
        reveal_strlit("'");
        assert(out@ =~= seq!['\'']);
        assert(s@.take(0) =~= Seq::<char>::empty());
        assert(out@ =~= seq!['\''] + quote_escaped(s@.take(0)));
    }
    let mut start: usize = 0;
    let mut i: usize = 0;
    while i < len
        invariant
            0 <= start <= i <= len,
            len == s@.len(),
            out@ == seq!['\''] + quote_escaped(s@.take(start as int)),
            forall|k: int| start <= k < i ==> s@[k] != '\'',
        decreases len - i,
    {
        if s.get_char(i) == '\'' {
            let seg = s.substring_char(start, i);
            out.append(seg);
            proof {
                assert(s@.take(i as int) =~= s@.take(start as int) + seg@);
                lemma_quote_escaped_concat(s@.take(start as int), seg@);
                lemma_quote_escaped_plain(seg@);
                assert(out@ =~= seq!['\''] + quote_escaped(s@.take(i as int)));
            }
            out.append("'\\''");
            proof {
                reveal_strlit("'\\''");
                assert("'\\''"@ =~= seq!['\'', '\\', '\'', '\'']);
                let one = seq![s@[i as int]];
                assert(s@.take(i + 1) =~= s@.take(i as int) + one);
                lemma_quote_escaped_concat(s@.take(i as int), one);
                assert(one.drop_first() =~= Seq::<char>::empty());
                assert(quote_escaped(one.drop_first()) =~= Seq::<char>::empty());
                assert(quote_escaped(one) =~= seq!['\'', '\\', '\'', '\'']);
                assert(out@ =~= seq!['\''] + quote_escaped(s@.take(i + 1)));
            }
            start = i + 1;
        }
        i += 1;
    }
    let seg = s.substring_char(start, len);
    out.append(seg);
    proof {
        assert(s@.take(len as int) =~= s@.take(start as int) + seg@);
        lemma_quote_escaped_concat(s@.take(start as int), seg@);
        lemma_quote_escaped_plain(seg@);
        assert(s@.take(len as int) =~= s@);
    }
    out.append("'");
    proof {
        reveal_strlit("'");
        assert(out@ =~= shell_quoted(s@));
    }
    out
}

/// The quoted trailing arguments, each preceded by one separating space.
pub open spec fn quoted_args(args: Seq<String>) -> Seq<char>
    decreases args.len(),
{
    if args.len() == 0 {
        Seq::empty()
    } else {
        quoted_args(args.drop_last()) + seq![' '] + shell_quoted(args.last()@)
    }
}

/// Launches the target program with the variables a definition file
/// resolves to.
pub struct CommandExecutor;

impl CommandExecutor {
    /// The command handed to `sh -c`: source the definition file, then
    /// replace the shell with the target program and the trailing
    /// arguments. The path and every argument are shell-quoted, so each
    /// passes word-splitting as one word.
    pub fn build_shell_command(env_file: &str, args: &Vec<String>) -> (r: String)
        ensures
            r@ == ". "@ + shell_quoted(env_file@) + " && exec agent"@ + quoted_args(args@),
    {
        let mut out = String::from_str(". ");
        let q = shell_quote(env_file);
        out.append(q.as_str());
        out.append(" && exec agent");
        proof {
            assert(args@.take(0) =~= Seq::<String>::empty());
            assert(out@ =~= ". "@ + shell_quoted(env_file@) + " && exec agent"@ + quoted_args(
                args@.take(0),
            ));
        }
        let n = args.len();
        let mut i: usize = 0;
        while i < n
            invariant
                0 <= i <= n,
                n == args@.len(),
                out@ == ". "@ + shell_quoted(env_file@) + " && exec agent"@ + quoted_args(
                    args@.take(i as int),
                ),
            decreases n - i,
        {
            out.append(" ");
            let qa = shell_quote(args[i].as_str());
            out.append(qa.as_str());
            proof {
                reveal_strlit(" ");
                assert(" "@ =~= seq![' ']);
                let pre = args@.take(i as int);
                let pre1 = args@.take(i as int + 1);
                assert(pre1.drop_last() =~= pre);
                assert(pre1.last() == args@[i as int]);
                assert(out@ =~= ". "@ + shell_quoted(env_file@) + " && exec agent"@ + quoted_args(
                    pre1,
                ));
            }
            i += 1;
        }
        proof {
            assert(args@.take(n as int) =~= args@);
        }
        out
    }

    /// The exit status the tool terminates with when replacing the
    /// process fails: the reserved not-found code when the command is
    /// absent, the generic failure code otherwise.
    pub fn exec_failure_code(target_missing: bool) -> (r: i32)
        ensures
            target_missing ==> r == 127,
            !target_missing ==> r == 1,
    {
        if target_missing {
            127
        } else {
            1
        }
    }

    /// The exit status to propagate from a spawned child: its own status,
    /// or the generic failure code when none is available.
    pub fn propagate_exit_status(code: Option<i32>) -> (r: i32)
        ensures
            match code {
                Some(c) => r == c,
                None => r == 1,
            },
    {
        match code {
            Some(c) => c,
            None => 1,
        }
    }
}

/// How the launcher hands control to the target program.
#[derive(Debug, Clone, Copy, PartialEq, Eq, Structural)]
pub enum LaunchMode {
    /// The current process becomes the target program.
    ReplaceInPlace,
    /// The target runs as a child; its exit status is propagated.
    SpawnAndWait,
}

/// Pick the launch mode from the platform's capability: replacement where
/// the platform supports it, the spawning fallback otherwise.
pub fn choose_launch_mode(replace_supported: bool) -> (r: LaunchMode)
    ensures
        r == (if replace_supported {
            LaunchMode::ReplaceInPlace
        } else {
            LaunchMode::SpawnAndWait
        }),
{
    if replace_supported {
        LaunchMode::ReplaceInPlace
    } else {
        LaunchMode::SpawnAndWait
    }
}

/// The key/value pairs an `env`-style dump's lines split into, in order:
/// each line split at its first `=`, key and value untrimmed, lines
/// without `=` dropped.
pub open spec fn dump_pairs(lines: Seq<Seq<char>>) -> Seq<(Seq<char>, Seq<char>)>
    decreases lines.len(),
{
    if lines.len() == 0 {
        Seq::empty()
    } else {
        let rest = dump_pairs(lines.drop_first());
        match split_first_eq(lines.first()) {
            None => rest,
            Some(kv) => seq![kv] + rest,
        }
    }
}

/// The views of a list of key/value pairs.
pub open spec fn pair_views(ps: Seq<(String, String)>) -> Seq<(Seq<char>, Seq<char>)> {
    Seq::new(ps.len(), |i: int| (ps[i].0@, ps[i].1@))
}

/// Split each line of an environment dump at its first `=`, keeping keys
/// and values whole; lines without `=` are dropped.
pub fn parse_windows_env_output(output: &str) -> (r: Vec<(String, String)>)
    ensures
        pair_views(r@) == dump_pairs(split_lines_spec(output@)),
{
    let mut r: Vec<(String, String)> = Vec::new();
    let mut rest: &str = output;
    proof {
        assert(pair_views(r@) =~= Seq::<(Seq<char>, Seq<char>)>::empty());
        assert(pair_views(r@) + dump_pairs(split_lines_spec(rest@)) =~= dump_pairs(
            split_lines_spec(output@),
        ));
    }
    loop
        invariant
            pair_views(r@) + dump_pairs(split_lines_spec(rest@)) == dump_pairs(
                split_lines_spec(output@),
            ),
        decreases rest@.len(),
    {
        let ghost lines = split_lines_spec(rest@);
        let ghost r_before = r@;
        let (line, more) = split_first_line(rest);
        proof {
            assert(lines.first() == line@);
        }
        let len = line.unicode_len();
        let i = find_char(line, '=');
        proof {
            lemma_first_pos(line@, '=');
        }
        if i < len {
            let k = String::from_str(line.substring_char(0, i));
            let v = String::from_str(line.substring_char(i + 1, len));
            r.push((k, v));
            proof {
                assert(line@.subrange(0, i as int) =~= line@.take(i as int));
                assert(line@.subrange(i + 1, len as int) =~= line@.skip(i + 1));
                assert(pair_views(r@) =~= pair_views(r_before) + seq![(k@, v@)]);
                assert(split_first_eq(line@) == Some((k@, v@)));
            }
        }
        match more {
            Some(r2) => {
                proof {
                    assert(lines.drop_first() =~= split_lines_spec(r2@));
                    assert(pair_views(r@) + dump_pairs(split_lines_spec(r2@)) =~= dump_pairs(
                        split_lines_spec(output@),
                    ));
                }
                rest = r2;
            },
            None => {
                proof {
                    assert(lines.drop_first() =~= Seq::<Seq<char>>::empty());
                    assert(dump_pairs(lines.drop_first()) =~= Seq::<(Seq<char>, Seq<char>)>::empty());
                    assert(pair_views(r@) =~= dump_pairs(split_lines_spec(output@)));
                }
                return r;
            },
        }
    }
}

} // verus!
