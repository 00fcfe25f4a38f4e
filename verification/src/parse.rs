//! The environment file parser. Two strategies produce a variable mapping:
//! a direct line-oriented parse of the file's text (`KEY=value`,
//! `export KEY=value`, comments, quote stripping), and a shell-delegated
//! parse of the environment dump printed after a shell sourced the file.

use vstd::prelude::*;

use crate::error::CceError;
use crate::strutil::{
    find_char, first_pos, has_prefix, is_space, leading_space_count, lemma_first_pos,
    lemma_first_pos_is, lemma_trim_around_sep, lemma_trim_end_form, lemma_trim_parts,
    lemma_trim_start_form, starts_with_str, trailing_space_start, trim, trim_end_spec, trim_spec,
    trim_start_spec,
};
use crate::vars::VarMap;

verus! {

/// Split `line` at its first `=`: the text before it and the text after
/// it, the latter kept whole even when it contains further `=` characters.
pub open spec fn split_first_eq(line: Seq<char>) -> Option<(Seq<char>, Seq<char>)> {
    let i = first_pos(line, '=');
    if 0 <= i < line.len() {
        Some((line.take(i), line.skip(i + 1)))
    } else {
        None
    }
}

/// What one line of an `env`-style dump denotes: nothing for an empty line
/// or a line without `=`; otherwise the trimmed key and the untrimmed
/// value.
pub open spec fn env_line_pair(line: Seq<char>) -> Option<(Seq<char>, Seq<char>)> {
    if line.len() == 0 {
        None
    } else {
        match split_first_eq(line) {
            None => None,
            Some(kv) => Some((trim_spec(kv.0), kv.1)),
        }
    }
}

/// Parse one `KEY=value` line of an `env`-style dump, splitting only on
/// the first `=`.
pub fn parse_env_line(line: &str) -> (r: Option<(String, String)>)
    ensures
        match r {
            Some(kv) => env_line_pair(line@) == Some((kv.0@, kv.1@)),
            None => env_line_pair(line@) is None,
        },
{
    if line.is_empty() {
        return None;
    }
    let len = line.unicode_len();
    let i = find_char(line, '=');
    proof {
        lemma_first_pos(line@, '=');
    }
    if i == len {
        return None;
    }
    let key = trim(line.substring_char(0, i));
    let value = line.substring_char(i + 1, len);
    proof {
        assert(line@.subrange(0, i as int) =~= line@.take(i as int));
        assert(line@.subrange(i + 1, len as int) =~= line@.skip(i + 1));
    }
    Some((String::from_str(key), String::from_str(value)))
}

/// The lines of `s`, split on `\n`; the final line is the text after the
/// last `\n`, possibly empty.
pub open spec fn split_lines_spec(s: Seq<char>) -> Seq<Seq<char>>
    decreases s.len(),
{
    let i = first_pos(s, '\n');
    if 0 <= i < s.len() {
        seq![s.take(i)] + split_lines_spec(s.skip(i + 1))
    } else {
        seq![s]
    }
}

/// Take the first line off `s`: the text before the first `\n` and the
/// remainder after it, or all of `s` when it holds no `\n`.
pub fn split_first_line<'a>(s: &'a str) -> (r: (&'a str, Option<&'a str>))
    ensures
        match r.1 {
            Some(rest) => split_lines_spec(s@) == seq![r.0@] + split_lines_spec(rest@)
                && rest@.len() < s@.len(),
            None => split_lines_spec(s@) == seq![s@] && r.0@ == s@,
        },
{
    let len = s.unicode_len();
    let i = find_char(s, '\n');
    proof {
        lemma_first_pos(s@, '\n');
    }
    if i == len {
        (s, None)
    } else {
        let line = s.substring_char(0, i);
        let rest = s.substring_char(i + 1, len);
        proof {
            assert(s@.subrange(0, i as int) =~= s@.take(i as int));
            assert(s@.subrange(i + 1, len as int) =~= s@.skip(i + 1));
        }
        (line, Some(rest))
    }
}

/// Apply one dump line to a mapping: a line without `=` changes nothing.
pub open spec fn dump_insert(
    m: Map<Seq<char>, Seq<char>>,
    line: Seq<char>,
) -> Map<Seq<char>, Seq<char>> {
    match env_line_pair(line) {
        None => m,
        Some(kv) => m.insert(kv.0, kv.1),
    }
}

/// Fold a sequence of dump lines over a mapping, in order: later lines
/// override earlier ones.
pub open spec fn dump_map_from(
    m: Map<Seq<char>, Seq<char>>,
    lines: Seq<Seq<char>>,
) -> Map<Seq<char>, Seq<char>>
    decreases lines.len(),
{
    if lines.len() == 0 {
        m
    } else {
        dump_map_from(dump_insert(m, lines.first()), lines.drop_first())
    }
}

/// The mapping an entire `env`-style dump denotes.
pub open spec fn shell_dump_map(out: Seq<char>) -> Map<Seq<char>, Seq<char>> {
    dump_map_from(Map::empty(), split_lines_spec(out))
}

/// Parse the output of sourcing a file and dumping the environment. Lines
/// without `=` are silently discarded; later lines override earlier ones.
pub fn parse_env_output(out: &str) -> (r: VarMap)
    ensures
        r.wf(),
        r@ == shell_dump_map(out@),
{
    let mut m = VarMap::new();
    let mut rest: &str = out;
    loop
        invariant
            m.wf(),
            dump_map_from(m@, split_lines_spec(rest@)) == shell_dump_map(out@),
        decreases rest@.len(),
    {
        let ghost m_before = m@;
        let ghost lines = split_lines_spec(rest@);
        let (line, more) = split_first_line(rest);
        match parse_env_line(line) {
            Some((k, v)) => {
                m.insert(k, v);
            },
            None => {},
        }
        proof {
            assert(m@ == dump_insert(m_before, line@));
        }
        match more {
            Some(r2) => {
                proof {
                    assert(lines.first() == line@);
                    assert(lines.drop_first() =~= split_lines_spec(r2@));
                }
                rest = r2;
            },
            None => {
                proof {
                    assert(lines.first() == line@);
                    assert(lines.drop_first() =~= Seq::<Seq<char>>::empty());
                    assert(dump_map_from(m_before, lines) == dump_map_from(
                        m@,
                        lines.drop_first(),
                    ));
                    assert(dump_map_from(m@, lines.drop_first()) == m@);
                }
                return m;
            },
        }
    }
}

/// A line the direct strategy ignores: blank, or a comment.
pub open spec fn line_skippable(line: Seq<char>) -> bool {
    trim_spec(line).len() == 0 || trim_spec(line)[0] == '#'
}

/// Remove an optional leading `export ` token.
pub open spec fn strip_export(t: Seq<char>) -> Seq<char> {
    if has_prefix(t, "export "@) {
        t.skip("export "@.len() as int)
    } else {
        t
    }
}

/// Strip one matching pair of surrounding double or single quotes; no
/// escape processing happens inside.
pub open spec fn unquote_spec(s: Seq<char>) -> Seq<char> {
    if s.len() >= 2 && s[0] == s[s.len() - 1] && (s[0] == '"' || s[0] == '\'') {
        s.subrange(1, s.len() - 1)
    } else {
        s
    }
}

/// Executable form of [`unquote_spec`].
pub fn unquote<'a>(s: &'a str) -> (r: &'a str)
    ensures
        r@ == unquote_spec(s@),
{
    let len = s.unicode_len();
    if len >= 2 {
        let c0 = s.get_char(0);
        let cl = s.get_char(len - 1);
        if c0 == cl && (c0 == '"' || c0 == '\'') {
            return s.substring_char(1, len - 1);
        }
    }
    s
}

/// What one line denotes under the direct strategy, skip handling aside:
/// after trimming and stripping `export `, split on the first `=`; the key
/// is trimmed, the value trimmed and unquoted. `None` means the line has
/// no `=`.
pub open spec fn direct_line_pair(line: Seq<char>) -> Option<(Seq<char>, Seq<char>)> {
    let t = strip_export(trim_spec(line));
    match split_first_eq(t) {
        None => None,
        Some(kv) => Some((trim_spec(kv.0), unquote_spec(trim_spec(kv.1)))),
    }
}

/// The direct strategy's verdict on one line.
pub enum ParsedLine {
    /// Blank or comment: ignored.
    Skip,
    /// A well-formed assignment: key and value.
    Pair(String, String),
    /// No `=` after the optional `export ` prefix: a format error.
    NoEquals,
}

/// Parse one line under the direct strategy.
pub fn parse_line(line: &str) -> (r: ParsedLine)
    ensures
        match r {
            ParsedLine::Skip => line_skippable(line@),
            ParsedLine::Pair(k, v) => !line_skippable(line@) && direct_line_pair(line@)
                == Some((k@, v@)),
            ParsedLine::NoEquals => !line_skippable(line@) && direct_line_pair(line@) is None,
        },
{
    let t = trim(line);
    if t.is_empty() {
        return ParsedLine::Skip;
    }
    if t.get_char(0) == '#' {
        return ParsedLine::Skip;
    }
    proof {
        reveal_strlit("export ");
    }
    let stripped = if starts_with_str(t, "export ") {
        t.substring_char(7, t.unicode_len())
    } else {
        t
    };
    proof {
        assert(stripped@ == strip_export(trim_spec(line@)));
    }
    let slen = stripped.unicode_len();
    let i = find_char(stripped, '=');
    proof {
        lemma_first_pos(stripped@, '=');
    }
    if i == slen {
        return ParsedLine::NoEquals;
    }
    let key = trim(stripped.substring_char(0, i));
    let value = unquote(trim(stripped.substring_char(i + 1, slen)));
    proof {
        assert(stripped@.subrange(0, i as int) =~= stripped@.take(i as int));
        assert(stripped@.subrange(i + 1, slen as int) =~= stripped@.skip(i + 1));
    }
    ParsedLine::Pair(String::from_str(key), String::from_str(value))
}

/// Every line of the sequence is acceptable to the direct strategy.
pub open spec fn direct_lines_ok(lines: Seq<Seq<char>>) -> bool {
    forall|i: int|
        0 <= i < lines.len() ==> line_skippable(#[trigger] lines[i]) || direct_line_pair(
            lines[i],
        ) is Some
}

/// Apply one line to a mapping under the direct strategy.
pub open spec fn direct_insert(
    m: Map<Seq<char>, Seq<char>>,
    line: Seq<char>,
) -> Map<Seq<char>, Seq<char>> {
    if line_skippable(line) {
        m
    } else {
        match direct_line_pair(line) {
            None => m,
            Some(kv) => m.insert(kv.0, kv.1),
        }
    }
}

/// Fold a sequence of lines over a mapping under the direct strategy:
/// later lines override earlier ones.
pub open spec fn direct_map_from(
    m: Map<Seq<char>, Seq<char>>,
    lines: Seq<Seq<char>>,
) -> Map<Seq<char>, Seq<char>>
    decreases lines.len(),
{
    if lines.len() == 0 {
        m
    } else {
        direct_map_from(direct_insert(m, lines.first()), lines.drop_first())
    }
}

/// The mapping a file's text denotes under the direct strategy, provided
/// every line is acceptable.
pub open spec fn direct_map(text: Seq<char>) -> Map<Seq<char>, Seq<char>> {
    direct_map_from(Map::empty(), split_lines_spec(text))
}

/// Parse a file's entire text under the direct line-oriented strategy.
/// Succeeds exactly when every line is blank, a comment, or an assignment;
/// the first line with no `=` fails the parse, naming `path`.
pub fn parse_contents(contents: &str, path: &str) -> (r: Result<VarMap, CceError>)
    ensures
        match r {
            Ok(m) => direct_lines_ok(split_lines_spec(contents@)) && m.wf() && m@ == direct_map(
                contents@,
            ),
            Err(e) => !direct_lines_ok(split_lines_spec(contents@)) && (e matches
                CceError::InvalidFormat(p) && p@ == path@),
        },
{
    let mut m = VarMap::new();
    let mut rest: &str = contents;
    let ghost mut done: Seq<Seq<char>> = Seq::empty();
    proof {
        assert(split_lines_spec(contents@) =~= done + split_lines_spec(rest@));
    }
    loop
        invariant
            m.wf(),
            direct_map_from(m@, split_lines_spec(rest@)) == direct_map(contents@),
            split_lines_spec(contents@) == done + split_lines_spec(rest@),
            forall|i: int|
                0 <= i < done.len() ==> line_skippable(#[trigger] done[i]) || direct_line_pair(
                    done[i],
                ) is Some,
        decreases rest@.len(),
    {
        let ghost m_before = m@;
        let ghost lines = split_lines_spec(rest@);
        let (line, more) = split_first_line(rest);
        proof {
            assert(lines.first() == line@);
            assert(lines[0] == line@);
        }
        match parse_line(line) {
            ParsedLine::Skip => {},
            ParsedLine::Pair(k, v) => {
                m.insert(k, v);
            },
            ParsedLine::NoEquals => {
                proof {
                    let all = split_lines_spec(contents@);
                    assert(all[done.len() as int] == line@);
                    assert(!(line_skippable(all[done.len() as int]) || direct_line_pair(
                        all[done.len() as int],
                    ) is Some));
                }
                return Err(CceError::InvalidFormat(String::from_str(path)));
            },
        }
        proof {
            assert(m@ == direct_insert(m_before, line@));
        }
        match more {
            Some(r2) => {
                proof {
                    assert(lines.drop_first() =~= split_lines_spec(r2@));
                    done = done.push(line@);
                    assert(split_lines_spec(contents@) =~= done + split_lines_spec(r2@));
                }
                rest = r2;
            },
            None => {
                proof {
                    assert(lines.drop_first() =~= Seq::<Seq<char>>::empty());
                    assert(direct_map_from(m_before, lines) == direct_map_from(
                        m@,
                        lines.drop_first(),
                    ));
                    assert(direct_map_from(m@, lines.drop_first()) == m@);
                    done = done.push(line@);
                    assert(split_lines_spec(contents@) =~= done);
                }
                return Ok(m);
            },
        }
    }
}

/// The outcome of asking a shell to source a definition file and dump the
/// resulting environment: the shell's success, what it printed, and its
/// diagnostic stream.
pub struct ShellOutcome {
    /// Whether the shell exited with status zero.
    pub success: bool,
    /// The captured standard output: an `env`-style dump on success.
    pub stdout: String,
    /// The captured diagnostic stream.
    pub stderr: String,
}

/// What was read for one definition file, by parsing strategy: the file's
/// own text for the direct strategy, or the outcome of the delegated shell
/// for the shell strategy.
pub enum FileSource {
    /// The file's text, to be parsed line by line.
    Text(String),
    /// The delegated shell's outcome, to be parsed as an environment dump.
    ShellDump(ShellOutcome),
}

/// Whether parsing the source succeeds.
pub open spec fn source_ok(src: FileSource) -> bool {
    match src {
        FileSource::Text(t) => direct_lines_ok(split_lines_spec(t@)),
        FileSource::ShellDump(o) => o.success,
    }
}

/// The mapping the source denotes when parsing it succeeds.
pub open spec fn source_map_val(src: FileSource) -> Map<Seq<char>, Seq<char>> {
    match src {
        FileSource::Text(t) => direct_map(t@),
        FileSource::ShellDump(o) => shell_dump_map(o.stdout@),
    }
}

/// The mapping a source denotes, or `None` when parsing it must fail.
pub open spec fn source_map(src: FileSource) -> Option<Map<Seq<char>, Seq<char>>> {
    if source_ok(src) {
        Some(source_map_val(src))
    } else {
        None
    }
}

/// Splitting happens only at the first `=`: with a key free of `=`, the
/// whole remainder is the value, further `=` characters and all.
pub proof fn lemma_env_line_splits_once(k: Seq<char>, v: Seq<char>)
    requires
        forall|i: int| 0 <= i < k.len() ==> k[i] != '=',
    ensures
        env_line_pair(k + seq!['='] + v) == Some((trim_spec(k), v)),
{
    lemma_split_after_key(k, v);
}

/// `split_first_eq` of a key, `=`, and a value finds exactly that split.
proof fn lemma_split_after_key(k: Seq<char>, v: Seq<char>)
    requires
        forall|i: int| 0 <= i < k.len() ==> k[i] != '=',
    ensures
        split_first_eq(k + seq!['='] + v) == Some((k, v)),
{
    let line = k + seq!['='] + v;
    assert(line.len() == k.len() + 1 + v.len());
    assert(line[k.len() as int] == '=');
    assert forall|j: int| 0 <= j < k.len() implies line[j] != '=' by {
        assert(line[j] == k[j]);
    }
    lemma_first_pos_is(line, '=', k.len() as int);
    assert(line.take(k.len() as int) =~= k);
    assert(line.skip(k.len() as int + 1) =~= v);
}

/// A value wrapped in one matching pair of double or single quotes
/// unquotes to exactly the wrapped text, whatever it contains.
pub proof fn lemma_unquote_quoted(v: Seq<char>, q: char)
    requires
        q == '"' || q == '\'',
    ensures
        unquote_spec(seq![q] + v + seq![q]) == v,
{
    let s = seq![q] + v + seq![q];
    assert(s.len() == v.len() + 2);
    assert(s[0] == q);
    assert(s[s.len() - 1] == q);
    assert(s.subrange(1, s.len() - 1) =~= v);
}

/// The key side of an assignment line cannot carry the `export ` prefix
/// across its `=`.
proof fn lemma_line_no_export(k: Seq<char>, v: Seq<char>)
    requires
        forall|i: int| 0 <= i < k.len() ==> k[i] != '=',
        !has_prefix(k, "export "@),
    ensures
        !has_prefix(k + seq!['='] + v, "export "@),
{
    reveal_strlit("export ");
    let e = "export "@;
    let line = k + seq!['='] + v;
    if has_prefix(line, e) {
        if k.len() >= e.len() {
            assert(k.take(e.len() as int) =~= line.take(e.len() as int));
            assert(has_prefix(k, e));
        } else {
            assert(line.take(e.len() as int)[k.len() as int] == e[k.len() as int]);
            assert(line[k.len() as int] == '=');
            assert(e[k.len() as int] != '=');
        }
    }
}

/// A well-formed assignment line parses to its trimmed key and its
/// trimmed, unquoted value: for any key side that is non-blank, not a
/// comment, free of `=` and of the `export ` prefix, and any value side,
/// the direct strategy accepts `KEY=value` and yields exactly that pair.
pub proof fn lemma_parse_assignment_line(k: Seq<char>, v: Seq<char>)
    requires
        forall|i: int| 0 <= i < k.len() ==> k[i] != '=',
        trim_spec(k).len() > 0,
        trim_spec(k)[0] != '#',
        !has_prefix(trim_start_spec(k), "export "@),
    ensures
        !line_skippable(k + seq!['='] + v),
        direct_line_pair(k + seq!['='] + v) == Some((trim_spec(k), unquote_spec(trim_spec(v)))),
{
    let line = k + seq!['='] + v;
    lemma_trim_around_sep(k, '=', v);
    let tsk = trim_start_spec(k);
    let tev = trim_end_spec(v);
    let t = tsk + seq!['='] + tev;
    assert(trim_spec(line) == t);
    // The trimmed key heads the trimmed line, so the line is no comment.
    lemma_trim_start_form(k);
    lemma_trim_end_form(tsk);
    assert(trim_spec(k) == trim_end_spec(tsk));
    assert(trim_end_spec(tsk) == tsk.take(trailing_space_start(tsk)));
    assert(tsk.len() > 0);
    assert(trim_spec(k)[0] == tsk[0]);
    assert(t[0] == tsk[0]);
    assert(!line_skippable(line));
    // No `export ` prefix survives into the trimmed line.
    let c = leading_space_count(k);
    assert(tsk =~= k.skip(c));
    assert forall|i: int| 0 <= i < tsk.len() implies tsk[i] != '=' by {
        assert(tsk[i] == k[i + c]);
    }
    lemma_line_no_export(tsk, tev);
    assert(strip_export(trim_spec(line)) == t);
    lemma_split_after_key(tsk, tev);
    // The side trims compose to the full trims of key and value.
    lemma_trim_parts(k);
    lemma_trim_parts(v);
}

/// The `export ` form of an assignment line parses exactly as the bare
/// form does: the prefix is stripped and the same trimmed key and
/// trimmed, unquoted value come out.
pub proof fn lemma_parse_export_line(k: Seq<char>, v: Seq<char>)
    requires
        forall|i: int| 0 <= i < k.len() ==> k[i] != '=',
        trim_spec(k).len() > 0,
    ensures
        !line_skippable("export "@ + k + seq!['='] + v),
        direct_line_pair("export "@ + k + seq!['='] + v) == Some(
            (trim_spec(k), unquote_spec(trim_spec(v))),
        ),
{
    reveal_strlit("export ");
    let e = "export "@;
    let ek = e + k;
    let line = e + k + seq!['='] + v;
    assert(line =~= ek + seq!['='] + v);
    lemma_trim_around_sep(ek, '=', v);
    assert(ek[0] == 'e');
    assert(!is_space('e'));
    assert(trim_start_spec(ek) == ek);
    let tev = trim_end_spec(v);
    let t = ek + seq!['='] + tev;
    assert(trim_spec(line) == t);
    // The line opens with the prefix, so it is no comment and the prefix
    // is stripped whole.
    assert(t[0] == 'e');
    assert(!line_skippable(line));
    assert(t.take(e.len() as int) =~= e);
    assert(has_prefix(t, e));
    assert(t.skip(e.len() as int) =~= k + seq!['='] + tev);
    assert(strip_export(trim_spec(line)) == k + seq!['='] + tev);
    lemma_split_after_key(k, tev);
    lemma_trim_parts(v);
}

/// Quoting is transparent: `KEY="v"` and `KEY='v'` both parse to the bare
/// value `v`, whatever `v` contains.
pub proof fn lemma_parse_quoted_value(k: Seq<char>, v: Seq<char>, q: char)
    requires
        forall|i: int| 0 <= i < k.len() ==> k[i] != '=',
        trim_spec(k).len() > 0,
        trim_spec(k)[0] != '#',
        !has_prefix(trim_start_spec(k), "export "@),
        q == '"' || q == '\'',
    ensures
        direct_line_pair(k + seq!['='] + (seq![q] + v + seq![q])) == Some((trim_spec(k), v)),
{
    let qv = seq![q] + v + seq![q];
    assert(qv[0] == q);
    assert(qv.last() == q);
    assert(!is_space(q));
    assert(trim_start_spec(qv) == qv);
    assert(trim_end_spec(qv) == qv);
    assert(trim_spec(qv) == qv);
    lemma_parse_assignment_line(k, qv);
    lemma_trim_parts(qv);
    assert(trim_spec(trim_end_spec(qv)) == qv);
    lemma_unquote_quoted(v, q);
}

/// Parse a definition file's source with the strategy it was read under.
/// A rejected text names `path`; a failed shell carries its diagnostics.
pub fn parse_source(src: &FileSource, path: &str) -> (r: Result<VarMap, CceError>)
    ensures
        match r {
            Ok(m) => source_map(*src) matches Some(sm) && m.wf() && m@ == sm,
            Err(e) => source_map(*src) is None && match *src {
                FileSource::Text(_) => e matches CceError::InvalidFormat(p) && p@ == path@,
                FileSource::ShellDump(o) => e matches CceError::ShellCommandFailed(msg) && msg@
                    == o.stderr@,
            },
        },
{
    match src {
        FileSource::Text(t) => parse_contents(t.as_str(), path),
        FileSource::ShellDump(o) => {
            if o.success {
                Ok(parse_env_output(o.stdout.as_str()))
            } else {
                Err(CceError::ShellCommandFailed(o.stderr.clone()))
            }
        },
    }
}

} // verus!
