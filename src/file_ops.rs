//! The plain file tools' renderings: paged reads, directory listings, and
//! the glob and grep reports. Walking directories and reading files is the
//! caller's.

use vstd::prelude::*;
use vstd::seq_lib::to_multiset_insert;
use crate::render::{make_numbered_output, numbered_output_spec};
use crate::text::{
    chars_of, decimal, join_chars, join_spec, lines_chars, lines_spec, lines_view, push_all, push_decimal,
    push_str_chars, string_of, copy_chars,
};

verus! {

/// Arguments of `read_file`.
#[derive(Debug, Clone)]
pub struct ReadFileArgs {
    pub path: String,
    pub offset: Option<usize>,
    pub limit: Option<usize>,
}

/// Arguments of `write_file`.
#[derive(Debug, Clone)]
pub struct WriteFileArgs {
    pub path: String,
    pub content: String,
}

/// Arguments of `list_files`.
#[derive(Debug, Clone)]
pub struct ListFilesArgs {
    pub path: String,
    pub recursive: Option<bool>,
}

/// Arguments of `delete_file`.
#[derive(Debug, Clone)]
pub struct DeleteFileArgs {
    pub path: String,
}

/// Lines shown by one read when the caller gives no limit.
pub const MAX_LINES_PER_READ: usize = 1000;

/// The most entries a listing shows.
pub const MAX_LIST_ENTRIES: usize = 1000;

pub open spec fn min(a: int, b: int) -> int {
    if a < b { a } else { b }
}

/// The header of a read of `total` lines showing lines `offset + 1` to
/// `end`: when more lines follow, it says which lines are shown and how to
/// read on.
pub open spec fn read_header_spec(path: Seq<char>, shown: Seq<char>, offset: int, end: int, total: int, limit: int) -> Seq<char> {
    "Read file: "@ + shown + if end < total {
        " (showing lines "@ + decimal((offset + 1) as nat) + "-"@ + decimal(end as nat) + " of "@ + decimal(total as nat) + ")"@
            + "\nTo read more, use: read_file(path='"@ + path + "', offset="@ + decimal(end as nat) + ", limit="@ + decimal(limit as nat) + ")"@
    } else {
        Seq::empty()
    }
}

/// What `read_file` shows of a file with contents `content`, displayed as
/// `shown`: the lines from `offset` on (at most `limit` of them) numbered
/// from `offset + 1`, under a header that says how to read on when more
/// lines follow; or an error when a nonzero offset is at or past the end.
pub open spec fn read_view_spec(path: Seq<char>, shown: Seq<char>, content: Seq<char>, offset: int, limit: int) -> Seq<char> {
    let ls = lines_spec(content);
    let total = ls.len() as int;
    if offset > 0 && offset >= total {
        "Error: Offset "@ + decimal(offset as nat) + " is beyond file length ("@ + decimal(total as nat) + " lines). Use a smaller offset."@
    } else {
        let end = min(offset + limit, total);
        read_header_spec(path, shown, offset, end, total, limit) + "\n\n"@
            + numbered_output_spec(join_spec(ls.subrange(min(offset, end), end), '\n'), offset + 1)
    }
}

fn read_header(path: &str, shown: &str, offset: usize, end: usize, total: usize, limit: usize) -> (r: Vec<char>)
    ensures
        r@ == read_header_spec(path@, shown@, offset as int, end as int, total as int, limit as int),
{
    let mut m: Vec<char> = Vec::new();
    push_str_chars(&mut m, "Read file: ");
    push_str_chars(&mut m, shown);
    let ghost base = m@;
    if end < total {
        push_str_chars(&mut m, " (showing lines ");
        push_decimal(&mut m, offset as u128 + 1);
        push_str_chars(&mut m, "-");
        push_decimal(&mut m, end as u128);
        push_str_chars(&mut m, " of ");
        push_decimal(&mut m, total as u128);
        push_str_chars(&mut m, ")");
        push_str_chars(&mut m, "\nTo read more, use: read_file(path='");
        push_str_chars(&mut m, path);
        push_str_chars(&mut m, "', offset=");
        push_decimal(&mut m, end as u128);
        push_str_chars(&mut m, ", limit=");
        push_decimal(&mut m, limit as u128);
        push_str_chars(&mut m, ")");
    }
    assert(m@ =~= read_header_spec(path@, shown@, offset as int, end as int, total as int, limit as int));
    m
}

fn read_body(lines: &Vec<Vec<char>>, offset: usize, end: usize) -> (r: String)
    requires
        end <= lines.len(),
    ensures
        r@ == numbered_output_spec(join_spec(lines_view(lines@).subrange(min(offset as int, end as int), end as int), '\n'), offset + 1),
{
    let from: usize = if offset < end { offset } else { end };
    let mut part: Vec<Vec<char>> = Vec::new();
    let mut i: usize = from;
    while i < end
        invariant
            from <= i <= end <= lines.len(),
            lines_view(part@) == lines_view(lines@).subrange(from as int, i as int),
        decreases end - i,
    {
        let ghost prev = lines_view(part@);
        let l = copy_chars(&lines[i]);
        let ghost lv = l@;
        part.push(l);
        assert(lines_view(part@) =~= prev.push(lv));
        i += 1;
        assert(lines_view(part@) =~= lines_view(lines@).subrange(from as int, i as int));
    }
    let text = string_of(&join_chars(&part, '\n'));
    if offset < usize::MAX {
        make_numbered_output(&text, offset + 1)
    } else {
        assert(from == end);
        assert(lines_view(part@) =~= Seq::<Seq<char>>::empty());
        let r = make_numbered_output(&text, offset);
        assert(lines_spec(text@) =~= Seq::<Seq<char>>::empty());
        assert(numbered_output_spec(text@, offset as int) =~= numbered_output_spec(text@, offset + 1));
        r
    }
}

/// Renders a read of `content` for `args`, with the file displayed as
/// `shown`.
pub fn read_file_view(args: &ReadFileArgs, shown: &str, content: &str) -> (r: String)
    ensures
        r@ == read_view_spec(args.path@, shown@, content@,
            match args.offset { Some(o) => o as int, None => 0 },
            match args.limit { Some(l) => l as int, None => MAX_LINES_PER_READ as int }),
{
    let lines = lines_chars(&chars_of(content));
    let total = lines.len();
    let offset: usize = match args.offset { Some(o) => o, None => 0 };
    let limit: usize = match args.limit { Some(l) => l, None => MAX_LINES_PER_READ };
    if offset > 0 && offset >= total {
        let mut m: Vec<char> = Vec::new();
        push_str_chars(&mut m, "Error: Offset ");
        push_decimal(&mut m, offset as u128);
        push_str_chars(&mut m, " is beyond file length (");
        push_decimal(&mut m, total as u128);
        push_str_chars(&mut m, " lines). Use a smaller offset.");
        return string_of(&m);
    }
    let end: usize = if (offset as u128) + (limit as u128) < total as u128 { offset + limit } else { total };
    let mut m = read_header(args.path.as_str(), shown, offset, end, total, limit);
    push_str_chars(&mut m, "\n\n");
    let body = read_body(&lines, offset, end);
    push_str_chars(&mut m, body.as_str());
    string_of(&m)
}


/// Arguments of `glob`.
#[derive(Debug, Clone)]
pub struct GlobArgs {
    pub pattern: String,
    pub path: Option<String>,
}

/// Arguments of `grep`.
#[derive(Debug, Clone)]
pub struct GrepArgs {
    pub pattern: String,
    pub path: Option<String>,
    pub filter: Option<String>,
}

/// The most paths a search reports.
pub const MAX_SEARCH_RESULTS: usize = 100;

pub open spec fn strings_view(v: Seq<String>) -> Seq<Seq<char>> {
    Seq::new(v.len(), |i: int| v[i]@)
}

pub open spec fn filter_note(filter: Option<Seq<char>>) -> Seq<char> {
    match filter {
        Some(i) => " (filtered by '"@ + i + "')"@,
        None => Seq::empty(),
    }
}

/// The report of a file search: how many paths were found `verb` (e.g.
/// `matching`, `containing`) `pattern` under `base`, then one path per line,
/// with a note when the cap was reached; or that none were found.
pub open spec fn search_report_spec(verb: Seq<char>, pattern: Seq<char>, base: Seq<char>, filter: Option<Seq<char>>, found: Seq<Seq<char>>) -> Seq<char> {
    if found.len() == 0 {
        "No files found "@ + verb + " pattern '"@ + pattern + "' in directory '"@ + base + "'"@ + filter_note(filter)
    } else {
        "Found "@ + decimal(found.len()) + " file(s) "@ + verb + " pattern '"@ + pattern + "' in '"@ + base + "'"@
            + filter_note(filter) + ":\n"@ + join_spec(found, '\n')
            + if found.len() >= MAX_SEARCH_RESULTS {
                "\n\n[Results truncated to first 100 files. Consider using a more specific pattern.]"@
            } else {
                Seq::empty()
            }
    }
}

fn to_lines(v: &Vec<String>) -> (r: Vec<Vec<char>>)
    ensures
        lines_view(r@) == strings_view(v@),
{
    let mut out: Vec<Vec<char>> = Vec::new();
    let mut i: usize = 0;
    while i < v.len()
        invariant
            i <= v.len(),
            lines_view(out@) == strings_view(v@).subrange(0, i as int),
        decreases v.len() - i,
    {
        let ghost prev = lines_view(out@);
        let l = chars_of(v[i].as_str());
        let ghost lv = l@;
        out.push(l);
        assert(lines_view(out@) =~= prev.push(lv));
        i += 1;
        assert(lines_view(out@) =~= strings_view(v@).subrange(0, i as int));
    }
    assert(strings_view(v@).subrange(0, v.len() as int) =~= strings_view(v@));
    out
}

/// Renders the report of a file search; `found` holds at most the capped
/// number of paths, in the order found.
pub fn search_report(verb: &str, pattern: &str, base: &str, filter: Option<&str>, found: &Vec<String>) -> (r: String)
    ensures
        r@ == search_report_spec(verb@, pattern@, base@, match filter { Some(i) => Some(i@), None => None }, strings_view(found@)),
{
    let mut m: Vec<char> = Vec::new();
    if found.len() == 0 {
        push_str_chars(&mut m, "No files found ");
        push_str_chars(&mut m, verb);
        push_str_chars(&mut m, " pattern '");
        push_str_chars(&mut m, pattern);
        push_str_chars(&mut m, "' in directory '");
        push_str_chars(&mut m, base);
        push_str_chars(&mut m, "'");
    } else {
        push_str_chars(&mut m, "Found ");
        push_decimal(&mut m, found.len() as u128);
        push_str_chars(&mut m, " file(s) ");
        push_str_chars(&mut m, verb);
        push_str_chars(&mut m, " pattern '");
        push_str_chars(&mut m, pattern);
        push_str_chars(&mut m, "' in '");
        push_str_chars(&mut m, base);
        push_str_chars(&mut m, "'");
    }
    match filter {
        Some(i) => {
            push_str_chars(&mut m, " (filtered by '");
            push_str_chars(&mut m, i);
            push_str_chars(&mut m, "')");
        },
        None => {},
    }
    if found.len() > 0 {
        push_str_chars(&mut m, ":\n");
        let joined = join_chars(&to_lines(found), '\n');
        push_all(&mut m, &joined);
        if found.len() >= MAX_SEARCH_RESULTS {
            push_str_chars(&mut m, "\n\n[Results truncated to first 100 files. Consider using a more specific pattern.]");
        }
    }
    assert(m@ =~= search_report_spec(verb@, pattern@, base@, match filter { Some(i) => Some(i@), None => None }, strings_view(found@)));
    string_of(&m)
}

/// What walking a glob pattern gave.
#[derive(Debug, Clone)]
pub enum GlobOutcome {
    /// The base path is not a directory.
    NotADirectory,
    /// The pattern did not compile; the reason.
    InvalidPattern(String),
    /// Reading an entry failed; the reason.
    WalkError(String),
    /// The matching paths, at most the capped number, in walk order.
    Matches(Vec<String>),
}

/// The `glob` tool's report for `args`, searched under `base` (as shown),
/// given what walking the pattern gave.
pub fn run_glob(args: &GlobArgs, base: &str, outcome: &GlobOutcome) -> (r: String)
    ensures
        match outcome {
            GlobOutcome::NotADirectory => r@ == "Path '"@ + base@ + "' is not a valid directory"@,
            GlobOutcome::InvalidPattern(e) => r@ == "Error: Invalid glob pattern '"@ + args.pattern@ + "': "@ + e@,
            GlobOutcome::WalkError(e) => r@ == "Error while iterating glob matches: "@ + e@,
            GlobOutcome::Matches(found) => r@ == search_report_spec("matching"@, args.pattern@, base@, None, strings_view(found@)),
        },
{
    let mut m: Vec<char> = Vec::new();
    match outcome {
        GlobOutcome::NotADirectory => {
            push_str_chars(&mut m, "Path '");
            push_str_chars(&mut m, base);
            push_str_chars(&mut m, "' is not a valid directory");
            string_of(&m)
        },
        GlobOutcome::InvalidPattern(e) => {
            push_str_chars(&mut m, "Error: Invalid glob pattern '");
            push_str_chars(&mut m, args.pattern.as_str());
            push_str_chars(&mut m, "': ");
            push_str_chars(&mut m, e.as_str());
            string_of(&m)
        },
        GlobOutcome::WalkError(e) => {
            push_str_chars(&mut m, "Error while iterating glob matches: ");
            push_str_chars(&mut m, e.as_str());
            string_of(&m)
        },
        GlobOutcome::Matches(found) => search_report("matching", args.pattern.as_str(), base, None, found),
    }
}

/// What searching file contents gave.
#[derive(Debug, Clone)]
pub enum GrepOutcome {
    /// The base path is not a directory.
    NotADirectory,
    /// The regular expression did not compile; the reason.
    InvalidRegex(String),
    /// The paths whose contents match, at most the capped number.
    Matches(Vec<String>),
}

/// The `grep` tool's report for `args`, searched under `base` (as shown),
/// given what the search gave.
pub fn run_grep(args: &GrepArgs, base: &str, outcome: &GrepOutcome) -> (r: String)
    ensures
        match outcome {
            GrepOutcome::NotADirectory => r@ == "Path '"@ + base@ + "' is not a valid directory"@,
            GrepOutcome::InvalidRegex(e) => r@ == "Error: Invalid regex pattern '"@ + args.pattern@ + "': "@ + e@,
            GrepOutcome::Matches(found) => r@ == search_report_spec("containing"@, args.pattern@, base@,
                match args.filter { Some(i) => Some(i@), None => None }, strings_view(found@)),
        },
{
    let mut m: Vec<char> = Vec::new();
    match outcome {
        GrepOutcome::NotADirectory => {
            push_str_chars(&mut m, "Path '");
            push_str_chars(&mut m, base);
            push_str_chars(&mut m, "' is not a valid directory");
            string_of(&m)
        },
        GrepOutcome::InvalidRegex(e) => {
            push_str_chars(&mut m, "Error: Invalid regex pattern '");
            push_str_chars(&mut m, args.pattern.as_str());
            push_str_chars(&mut m, "': ");
            push_str_chars(&mut m, e.as_str());
            string_of(&m)
        },
        GrepOutcome::Matches(found) => {
            let inc: Option<&str> = match &args.filter { Some(i) => Some(i.as_str()), None => None };
            search_report("containing", args.pattern.as_str(), base, inc, found)
        },
    }
}

/// The regular expression that a file-name glob like `*.{ts,tsx}` stands
/// for: `.` escaped, `*` as `.*`, braces as a group, commas as
/// alternatives, anchored at both ends.
pub open spec fn filter_regex_body(g: Seq<char>) -> Seq<char>
    decreases g.len(),
{
    if g.len() == 0 {
        Seq::empty()
    } else {
        let c = g[0];
        let piece = if c == '.' { seq!['\\', '.'] } else if c == '*' { seq!['.', '*'] } else if c == '{' { seq!['('] }
            else if c == '}' { seq![')'] } else if c == ',' { seq!['|'] } else { seq![c] };
        piece + filter_regex_body(g.drop_first())
    }
}

/// The anchored regular expression for the file-name glob `g`.
pub fn filter_to_regex(g: &str) -> (r: String)
    ensures
        r@ == seq!['^'] + filter_regex_body(g@) + seq!['$'],
{
    let v = chars_of(g);
    let mut out: Vec<char> = Vec::new();
    out.push('^');
    let mut i: usize = 0;
    assert(v@.subrange(0, v.len() as int) =~= v@);
    assert(out@ =~= seq!['^']);
    while i < v.len()
        invariant
            i <= v.len(),
            out@ + filter_regex_body(v@.subrange(i as int, v.len() as int)) == seq!['^'] + filter_regex_body(v@),
        decreases v.len() - i,
    {
        let c = v[i];
        assert(v@.subrange(i as int, v.len() as int).drop_first() =~= v@.subrange(i + 1, v.len() as int));
        let ghost before = out@;
        if c == '.' {
            out.push('\\');
            out.push('.');
        } else if c == '*' {
            out.push('.');
            out.push('*');
        } else if c == '{' {
            out.push('(');
        } else if c == '}' {
            out.push(')');
        } else if c == ',' {
            out.push('|');
        } else {
            out.push(c);
        }
        i += 1;
        assert(out@ + filter_regex_body(v@.subrange(i as int, v.len() as int))
            =~= before + filter_regex_body(v@.subrange(i - 1, v.len() as int)));
    }
    out.push('$');
    assert(v@.subrange(v.len() as int, v.len() as int) =~= Seq::<char>::empty());
    assert(v@.subrange(0, v.len() as int) =~= v@);
    string_of(&out)
}


/// `a` sorts strictly before `b`: at the first position where they differ
/// `a` has the smaller character, or `a` is a proper prefix of `b`. On
/// UTF-8 text this is the byte order that `str`'s `Ord` uses.
pub open spec fn lex_lt(a: Seq<char>, b: Seq<char>) -> bool
    decreases a.len(),
{
    if a.len() == 0 {
        b.len() > 0
    } else if b.len() == 0 {
        false
    } else if a[0] != b[0] {
        a[0] < b[0]
    } else {
        lex_lt(a.drop_first(), b.drop_first())
    }
}

proof fn lemma_lex_trans(a: Seq<char>, b: Seq<char>, c: Seq<char>)
    requires
        !lex_lt(b, a),
        !lex_lt(c, b),
    ensures
        !lex_lt(c, a),
    decreases a.len(),
{
    if a.len() > 0 && b.len() > 0 && c.len() > 0 && a[0] == b[0] && b[0] == c[0] {
        lemma_lex_trans(a.drop_first(), b.drop_first(), c.drop_first());
    }
}

proof fn lemma_lex_irrefl(a: Seq<char>)
    ensures
        !lex_lt(a, a),
    decreases a.len(),
{
    if a.len() > 0 {
        lemma_lex_irrefl(a.drop_first());
    }
}

proof fn lemma_lex_total(a: Seq<char>, b: Seq<char>)
    ensures
        lex_lt(a, b) ==> !lex_lt(b, a),
    decreases a.len(),
{
    if a.len() > 0 && b.len() > 0 && a[0] == b[0] {
        lemma_lex_total(a.drop_first(), b.drop_first());
    }
}

fn lex_less(a: &Vec<char>, b: &Vec<char>) -> (r: bool)
    ensures
        r == lex_lt(a@, b@),
{
    let mut i: usize = 0;
    assert(a@.subrange(0, a.len() as int) =~= a@);
    assert(b@.subrange(0, b.len() as int) =~= b@);
    while i < a.len() && i < b.len() && a[i] == b[i]
        invariant
            i <= a.len(),
            i <= b.len(),
            lex_lt(a@, b@) == lex_lt(a@.subrange(i as int, a.len() as int), b@.subrange(i as int, b.len() as int)),
        decreases a.len() - i,
    {
        assert(a@.subrange(i as int, a.len() as int).drop_first() =~= a@.subrange(i + 1, a.len() as int));
        assert(b@.subrange(i as int, b.len() as int).drop_first() =~= b@.subrange(i + 1, b.len() as int));
        i += 1;
    }
    if i == a.len() {
        i < b.len()
    } else if i == b.len() {
        false
    } else {
        a[i] < b[i]
    }
}

/// No string of `s` sorts before one ahead of it.
pub open spec fn lex_sorted(s: Seq<Seq<char>>) -> bool {
    forall|i: int, j: int| 0 <= i < j < s.len() ==> !lex_lt(#[trigger] s[j], #[trigger] s[i])
}

/// `v` in ascending order, equal strings kept in their order.
pub fn sort_lines(v: Vec<Vec<char>>) -> (r: Vec<Vec<char>>)
    ensures
        lines_view(r@).to_multiset() == lines_view(v@).to_multiset(),
        lex_sorted(lines_view(r@)),
{
    let ghost input = lines_view(v@);
    let mut rest = v;
    let mut out: Vec<Vec<char>> = Vec::new();
    let n = rest.len();
    let mut k: usize = 0;
    assert(lines_view(out@) =~= Seq::<Seq<char>>::empty());
    assert(input.subrange(0, 0) =~= Seq::<Seq<char>>::empty());
    while k < n
        invariant
            k <= n == input.len(),
            lines_view(rest@) == input.subrange(k as int, n as int),
            lines_view(out@).to_multiset() == input.subrange(0, k as int).to_multiset(),
            lex_sorted(lines_view(out@)),
        decreases n - k,
    {
        let ghost before = lines_view(rest@);
        let ghost before_raw = rest@;
        assert(before.len() == rest@.len());
        let e = rest.remove(0);
        assert(e@ == before[0]);
        assert(rest@ =~= before_raw.subrange(1, before_raw.len() as int));
        assert(lines_view(rest@) =~= before.subrange(1, before.len() as int));
        assert(lines_view(rest@) =~= input.subrange(k + 1, n as int));
        let mut pos: usize = 0;
        while pos < out.len() && !lex_less(&e, &out[pos])
            invariant
                pos <= out.len(),
                forall|i: int| 0 <= i < pos ==> !lex_lt(e@, #[trigger] lines_view(out@)[i]),
            decreases out.len() - pos,
        {
            pos += 1;
        }
        let ghost old_out = lines_view(out@);
        let ghost ev = e@;
        out.insert(pos, e);
        assert(lines_view(out@) =~= old_out.insert(pos as int, ev));
        proof {
            to_multiset_insert(old_out, pos as int, ev);
            assert(input.subrange(0, k + 1) =~= input.subrange(0, k as int).push(ev));
            vstd::seq_lib::to_multiset_build(input.subrange(0, k as int), ev);
            old_out.insert_ensures(pos as int, ev);
            let o = lines_view(out@);
            assert forall|i: int, j: int| 0 <= i < j < o.len() implies !lex_lt(#[trigger] o[j], #[trigger] o[i]) by {
                if j < pos {
                } else if j == pos {
                } else if i < pos {
                    assert(o[j] == old_out[j - 1]);
                } else if i == pos {
                    assert(o[j] == old_out[j - 1]);
                    lemma_lex_total(ev, old_out[pos as int]);
                    if j - 1 > pos {
                        assert(!lex_lt(old_out[j - 1], old_out[pos as int]));
                    } else {
                        lemma_lex_irrefl(old_out[pos as int]);
                    }
                    lemma_lex_trans(ev, old_out[pos as int], old_out[j - 1]);
                } else {
                    assert(o[j] == old_out[j - 1]);
                    assert(o[i] == old_out[i - 1]);
                }
            }
        }
        k += 1;
    }
    assert(input.subrange(0, n as int) =~= input);
    out
}


/// The `list_files` report: a header with the number of entries (noting
/// the cap when it was reached), then the entries, one per line.
pub open spec fn list_report_spec(shown: Seq<char>, sorted: Seq<Seq<char>>) -> Seq<char> {
    "Listed directory: "@ + shown + " ("@ + decimal(sorted.len()) + " entries"@
        + (if sorted.len() >= MAX_LIST_ENTRIES { ", truncated to 1000"@ } else { Seq::empty() }) + ")"@
        + "\n"@ + join_spec(sorted, '\n')
}

/// Renders the `list_files` report of the entries `entries` (each
/// `name (file)` or `name (dir)`, at most the capped number) of the
/// directory shown as `shown`; the entries appear in sorted order.
pub fn list_files_report(shown: &str, entries: Vec<String>) -> (r: String)
    ensures
        exists|s: Seq<Seq<char>>| s.to_multiset() == strings_view(entries@).to_multiset() && lex_sorted(s)
            && r@ == list_report_spec(shown@, s),
{
    let lines = to_lines(&entries);
    let sorted = sort_lines(lines);
    let n = sorted.len();
    proof {
        vstd::seq_lib::to_multiset_len(lines_view(sorted@));
        vstd::seq_lib::to_multiset_len(strings_view(entries@));
    }
    let mut m: Vec<char> = Vec::new();
    push_str_chars(&mut m, "Listed directory: ");
    push_str_chars(&mut m, shown);
    push_str_chars(&mut m, " (");
    push_decimal(&mut m, n as u128);
    push_str_chars(&mut m, " entries");
    if n >= MAX_LIST_ENTRIES {
        push_str_chars(&mut m, ", truncated to 1000");
    }
    push_str_chars(&mut m, ")");
    push_str_chars(&mut m, "\n");
    let body = join_chars(&sorted, '\n');
    push_all(&mut m, &body);
    assert(m@ =~= list_report_spec(shown@, lines_view(sorted@)));
    string_of(&m)
}

/// The names a directory view shows: entries not starting with `.`, with a
/// `/` after each directory.
pub open spec fn visible_names(entries: Seq<(String, bool)>) -> Seq<Seq<char>>
    decreases entries.len(),
{
    if entries.len() == 0 {
        Seq::empty()
    } else {
        let init = visible_names(entries.drop_last());
        let e = entries.last();
        if e.0@.len() > 0 && e.0@[0] == '.' {
            init
        } else if e.1 {
            init.push(e.0@ + "/"@)
        } else {
            init.push(e.0@)
        }
    }
}

/// The file editor's view of a directory.
pub open spec fn dir_view_spec(shown: Seq<char>, sorted: Seq<Seq<char>>) -> Seq<char> {
    "Here's the files and directories in "@ + shown + ", excluding hidden items:\n"@ + join_spec(sorted, '\n')
}

/// Renders the file editor's view of the directory shown as `shown`, whose
/// entries are `entries` (each a name and whether it is a directory):
/// hidden entries are left out, directories get a `/`, and the names are
/// sorted.
pub fn dir_view_report(shown: &str, entries: &Vec<(String, bool)>) -> (r: String)
    ensures
        exists|s: Seq<Seq<char>>| s.to_multiset() == visible_names(entries@).to_multiset() && lex_sorted(s)
            && r@ == dir_view_spec(shown@, s),
{
    let mut names: Vec<Vec<char>> = Vec::new();
    let mut i: usize = 0;
    assert(lines_view(names@) =~= visible_names(entries@.subrange(0, 0)));
    while i < entries.len()
        invariant
            i <= entries.len(),
            lines_view(names@) == visible_names(entries@.subrange(0, i as int)),
        decreases entries.len() - i,
    {
        let name = chars_of(entries[i].0.as_str());
        assert(entries@.subrange(0, i + 1).drop_last() =~= entries@.subrange(0, i as int));
        if !(name.len() > 0 && name[0] == '.') {
            let mut shown_name = copy_chars(&name);
            if entries[i].1 {
                shown_name.push('/');
                proof { reveal_strlit("/"); }
                assert(shown_name@ =~= name@ + "/"@);
            }
            let ghost prev = lines_view(names@);
            let ghost sv = shown_name@;
            names.push(shown_name);
            assert(lines_view(names@) =~= prev.push(sv));
        }
        i += 1;
    }
    assert(entries@.subrange(0, entries.len() as int) =~= entries@);
    let sorted = sort_lines(names);
    let mut m: Vec<char> = Vec::new();
    push_str_chars(&mut m, "Here's the files and directories in ");
    push_str_chars(&mut m, shown);
    push_str_chars(&mut m, ", excluding hidden items:\n");
    let body = join_chars(&sorted, '\n');
    push_all(&mut m, &body);
    assert(m@ =~= dir_view_spec(shown@, lines_view(sorted@)));
    string_of(&m)
}


/// Whether a directory entry named `name` is hidden: its name starts with
/// a dot.
pub fn is_hidden_name(name: &str) -> (r: bool)
    ensures
        r == (name@.len() > 0 && name@[0] == '.'),
{
    let c = chars_of(name);
    c.len() > 0 && c[0] == '.'
}

/// Whether a search that has found `n` paths has reached the cap.
pub fn search_full(n: usize) -> (r: bool)
    ensures
        r == (n >= MAX_SEARCH_RESULTS),
{
    n >= MAX_SEARCH_RESULTS
}

/// No pair of `s` has an older time than one after it.
pub open spec fn newest_sorted(s: Seq<(String, u128)>) -> bool {
    forall|i: int, j: int| 0 <= i < j < s.len() ==> (#[trigger] s[i]).1 >= (#[trigger] s[j]).1
}

/// The paths of `(path, modification time)` pairs, newest first; paths
/// with equal times keep their order.
pub fn newest_first(found: Vec<(String, u128)>) -> (r: Vec<String>)
    ensures
        exists|s: Seq<(String, u128)>| s.to_multiset() == found@.to_multiset() && newest_sorted(s)
            && r@.len() == s.len() && forall|i: int| 0 <= i < s.len() ==> r@[i] == (#[trigger] s[i]).0,
{
    let ghost input = found@;
    let mut rest = found;
    let mut out: Vec<(String, u128)> = Vec::new();
    let n = rest.len();
    let mut k: usize = 0;
    assert(input.subrange(0, 0) =~= Seq::<(String, u128)>::empty());
    while k < n
        invariant
            k <= n == input.len(),
            rest@ == input.subrange(k as int, n as int),
            out@.to_multiset() == input.subrange(0, k as int).to_multiset(),
            newest_sorted(out@),
        decreases n - k,
    {
        let e = rest.remove(0);
        assert(e == input[k as int]);
        assert(rest@ =~= input.subrange(k + 1, n as int));
        let mut pos: usize = 0;
        while pos < out.len() && out[pos].1 >= e.1
            invariant
                pos <= out.len(),
                forall|i: int| 0 <= i < pos ==> (#[trigger] out@[i]).1 >= e.1,
            decreases out.len() - pos,
        {
            pos += 1;
        }
        let ghost old_out = out@;
        proof {
            to_multiset_insert(old_out, pos as int, e);
            assert(input.subrange(0, k + 1) =~= input.subrange(0, k as int).push(e));
            vstd::seq_lib::to_multiset_build(input.subrange(0, k as int), e);
            old_out.insert_ensures(pos as int, e);
        }
        out.insert(pos, e);
        proof {
            let o = out@;
            assert forall|i: int, j: int| 0 <= i < j < o.len() implies (#[trigger] o[i]).1 >= (#[trigger] o[j]).1 by {
                if j < pos {
                } else if j == pos {
                } else if i < pos {
                    assert(o[j] == old_out[j - 1]);
                } else if i == pos {
                    assert(o[j] == old_out[j - 1]);
                    assert(old_out[pos as int].1 >= old_out[j - 1].1);
                } else {
                    assert(o[j] == old_out[j - 1]);
                    assert(o[i] == old_out[i - 1]);
                }
            }
        }
        k += 1;
    }
    assert(input.subrange(0, n as int) =~= input);
    let mut r: Vec<String> = Vec::new();
    let mut i: usize = 0;
    while i < out.len()
        invariant
            i <= out.len(),
            r@.len() == i,
            forall|j: int| 0 <= j < i ==> r@[j] == (#[trigger] out@[j]).0,
        decreases out.len() - i,
    {
        r.push(out[i].0.clone());
        i += 1;
    }
    r
}

} // verus!
