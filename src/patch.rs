//! The patch engine: parses the `*** Begin Patch` dialect, locates each
//! section in the target file with fuzzy context matching, and computes the
//! new contents of every touched path.

use vstd::prelude::*;
use crate::files::{FileContents, FileChanges};
use crate::text::{lemma_split_no_sep, lemma_join_split, lemma_split_nonempty, lemma_split_join, lemma_join_ends, lemma_trim_id, lines_spec, lines_chars, trim_chars as trim_line, chars_of, starts_with_chars, decimal, join_spec, split_spec, split_chars, join_chars, push_all, push_decimal, push_str_chars, string_of, lines_view, trim_end_spec, trim_spec, copy_chars, trim_end_chars, trim_chars, eq_chars};

verus! {

/// Why a patch could not be parsed or applied; the text names the failing
/// path, line or cursor.
#[derive(Debug, Clone)]
pub struct DiffError(pub String);

impl DiffError {
    /// The error's message.
    pub fn message(&self) -> (r: String)
        ensures
            r@ == self.0@,
    {
        self.0.clone()
    }
}

/// One contiguous replacement: at line `orig_index` of the target, the lines
/// `del_lines` give way to `ins_lines`.
#[derive(Debug, Clone)]
pub struct Chunk {
    pub orig_index: usize,
    pub del_lines: Vec<Vec<char>>,
    pub ins_lines: Vec<Vec<char>>,
}

pub ghost struct ChunkSpec {
    pub orig_index: int,
    pub del: Seq<Seq<char>>,
    pub ins: Seq<Seq<char>>,
}

impl Chunk {
    pub open spec fn view(&self) -> ChunkSpec {
        ChunkSpec {
            orig_index: self.orig_index as int,
            del: lines_view(self.del_lines@),
            ins: lines_view(self.ins_lines@),
        }
    }
}

pub open spec fn chunks_view(v: Seq<Chunk>) -> Seq<ChunkSpec> {
    Seq::new(v.len(), |i: int| v[i].view())
}

/// How strictly two lines must agree: exactly, up to trailing whitespace, or
/// up to whitespace at both ends.
pub open spec fn norm(l: Seq<char>, level: int) -> Seq<char> {
    if level == 0 {
        l
    } else if level == 1 {
        trim_end_spec(l)
    } else {
        trim_spec(l)
    }
}

/// The fuzz that a match at `level` costs.
pub open spec fn level_fuzz(level: int) -> nat {
    if level == 0 {
        0
    } else if level == 1 {
        1
    } else {
        100
    }
}

/// `ctx` agrees with `lines` from line `i` on, at `level`.
pub open spec fn matches_at(lines: Seq<Seq<char>>, ctx: Seq<Seq<char>>, i: int, level: int) -> bool {
    &&& 0 <= i
    &&& i + ctx.len() <= lines.len()
    &&& forall|j: int| 0 <= j < ctx.len() ==> norm(#[trigger] lines[i + j], level) == norm(ctx[j], level)
}

/// The first line at or after `i` where `ctx` agrees at `level`.
pub open spec fn first_match(lines: Seq<Seq<char>>, ctx: Seq<Seq<char>>, i: int, level: int) -> Option<int>
    decreases lines.len() - i,
{
    if i < 0 || i >= lines.len() {
        None
    } else if matches_at(lines, ctx, i, level) {
        Some(i)
    } else {
        first_match(lines, ctx, i + 1, level)
    }
}

/// Where `ctx` is found from `start` on, and at what fuzz: exact matches are
/// tried first, then trailing-whitespace matches, then trimmed matches.
pub open spec fn find_context_core_spec(lines: Seq<Seq<char>>, ctx: Seq<Seq<char>>, start: int) -> Option<(int, nat)> {
    if ctx.len() == 0 {
        Some((start, 0))
    } else if first_match(lines, ctx, start, 0) is Some {
        Some((first_match(lines, ctx, start, 0)->0, 0))
    } else if first_match(lines, ctx, start, 1) is Some {
        Some((first_match(lines, ctx, start, 1)->0, 1))
    } else if first_match(lines, ctx, start, 2) is Some {
        Some((first_match(lines, ctx, start, 2)->0, 100))
    } else {
        None
    }
}

/// The fuzz added when a section marked as ending the file matches elsewhere.
pub open spec fn eof_penalty() -> nat {
    10000
}

/// Context search for one section; with `eof` the match at the very end of
/// the file is tried first.
pub open spec fn find_context_spec(lines: Seq<Seq<char>>, ctx: Seq<Seq<char>>, start: int, eof: bool) -> Option<(int, nat)> {
    let tail = if lines.len() >= ctx.len() { lines.len() - ctx.len() } else { 0 };
    if eof && find_context_core_spec(lines, ctx, tail) is Some {
        find_context_core_spec(lines, ctx, tail)
    } else if eof && find_context_core_spec(lines, ctx, start) is Some {
        let (i, f) = find_context_core_spec(lines, ctx, start)->0;
        Some((i, f + eof_penalty()))
    } else {
        find_context_core_spec(lines, ctx, start)
    }
}

fn norm_line(l: &Vec<char>, level: usize) -> (r: Vec<char>)
    requires
        level <= 2,
    ensures
        r@ == norm(l@, level as int),
{
    if level == 0 {
        copy_chars(l)
    } else if level == 1 {
        trim_end_chars(l)
    } else {
        trim_chars(l)
    }
}

fn matches_at_exec(lines: &Vec<Vec<char>>, ctx: &Vec<Vec<char>>, i: usize, level: usize) -> (r: bool)
    requires
        level <= 2,
        i + ctx.len() <= lines.len(),
    ensures
        r == matches_at(lines_view(lines@), lines_view(ctx@), i as int, level as int),
{
    let mut j: usize = 0;
    while j < ctx.len()
        invariant
            j <= ctx.len(),
            i + ctx.len() <= lines.len(),
            level <= 2,
            forall|k: int| 0 <= k < j ==> norm(#[trigger] lines_view(lines@)[i + k], level as int) == norm(lines_view(ctx@)[k], level as int),
        decreases ctx.len() - j,
    {
        let a = norm_line(&lines[i + j], level);
        let b = norm_line(&ctx[j], level);
        if !eq_chars(&a, &b) {
            assert(norm(lines_view(lines@)[i + j], level as int) != norm(lines_view(ctx@)[j as int], level as int));
            return false;
        }
        j += 1;
    }
    true
}

fn first_match_exec(lines: &Vec<Vec<char>>, ctx: &Vec<Vec<char>>, start: usize, level: usize) -> (r: Option<usize>)
    requires
        level <= 2,
    ensures
        r matches Some(i) ==> first_match(lines_view(lines@), lines_view(ctx@), start as int, level as int) == Some(i as int),
        r is None ==> first_match(lines_view(lines@), lines_view(ctx@), start as int, level as int) is None,
{
    let ghost lv = lines_view(lines@);
    let ghost cv = lines_view(ctx@);
    let mut i: usize = start;
    while i < lines.len()
        invariant
            start <= i,
            level <= 2,
            lv == lines_view(lines@),
            cv == lines_view(ctx@),
            first_match(lv, cv, start as int, level as int) == first_match(lv, cv, i as int, level as int),
        decreases lines.len() - i,
    {
        if ctx.len() <= lines.len() - i && matches_at_exec(lines, ctx, i, level) {
            return Some(i);
        }
        i += 1;
    }
    None
}

/// Finds `context` in `lines` at or after `start`: the first exact match,
/// else the first trailing-whitespace match, else the first trimmed match.
pub fn find_context_core(lines: &Vec<Vec<char>>, context: &Vec<Vec<char>>, start: usize) -> (r: Option<(usize, usize)>)
    ensures
        r matches Some(p) ==> find_context_core_spec(lines_view(lines@), lines_view(context@), start as int) == Some((p.0 as int, p.1 as nat)),
        r is None ==> find_context_core_spec(lines_view(lines@), lines_view(context@), start as int) is None,
{
    if context.len() == 0 {
        return Some((start, 0));
    }
    match first_match_exec(lines, context, start, 0) {
        Some(i) => { return Some((i, 0)); },
        None => {},
    }
    match first_match_exec(lines, context, start, 1) {
        Some(i) => { return Some((i, 1)); },
        None => {},
    }
    match first_match_exec(lines, context, start, 2) {
        Some(i) => Some((i, 100)),
        None => None,
    }
}

/// Context search for one section, preferring the end of the file when the
/// section was marked `*** End of File`.
pub fn find_context(lines: &Vec<Vec<char>>, context: &Vec<Vec<char>>, start: usize, eof: bool) -> (r: Option<(usize, usize)>)
    ensures
        r matches Some(p) ==> find_context_spec(lines_view(lines@), lines_view(context@), start as int, eof) == Some((p.0 as int, p.1 as nat)),
        r is None ==> find_context_spec(lines_view(lines@), lines_view(context@), start as int, eof) is None,
{
    if eof {
        let tail: usize = if lines.len() >= context.len() { lines.len() - context.len() } else { 0 };
        match find_context_core(lines, context, tail) {
            Some(p) => { return Some(p); },
            None => {},
        }
        match find_context_core(lines, context, start) {
            Some(p) => {
                let f = p.1;
                if f == 0 {
                    return Some((p.0, 10000));
                } else if f == 1 {
                    return Some((p.0, 10001));
                } else {
                    return Some((p.0, 10100));
                }
            },
            None => { return None; },
        }
    }
    find_context_core(lines, context, start)
}


/// The message for a chunk that starts past the end of the file.
pub open spec fn chunk_past_end_msg(path: Seq<char>, at: int, len: int) -> Seq<char> {
    path + ": chunk.orig_index "@ + decimal(at as nat) + " > len(lines) "@ + decimal(len as nat)
}

/// The message for a chunk whose deleted lines run past the end of the file.
pub open spec fn chunk_end_past_end_msg(path: Seq<char>, at: int, n_del: int, len: int) -> Seq<char> {
    path + ": chunk.orig_index "@ + decimal(at as nat) + " deletes "@ + decimal(n_del as nat)
        + " lines past len(lines) "@ + decimal(len as nat)
}

/// The message for a chunk that starts before the previous one ended.
pub open spec fn chunk_out_of_order_msg(path: Seq<char>, cursor: int, at: int) -> Seq<char> {
    path + ": orig_index "@ + decimal(cursor as nat) + " > chunk.orig_index "@ + decimal(at as nat)
}

/// Replays `chunks[k..]` on `orig` from line `cursor`, after `dest` was
/// written: untouched lines are copied, each chunk's deleted lines are
/// replaced by its inserted lines.
pub open spec fn rebuild_from(
    orig: Seq<Seq<char>>,
    chunks: Seq<ChunkSpec>,
    k: int,
    cursor: int,
    dest: Seq<Seq<char>>,
    path: Seq<char>,
) -> Result<Seq<Seq<char>>, Seq<char>>
    decreases chunks.len() - k,
{
    if k < 0 || k >= chunks.len() {
        Ok(dest + orig.subrange(cursor, orig.len() as int))
    } else {
        let c = chunks[k];
        if c.orig_index > orig.len() {
            Err(chunk_past_end_msg(path, c.orig_index, orig.len() as int))
        } else if cursor > c.orig_index {
            Err(chunk_out_of_order_msg(path, cursor, c.orig_index))
        } else if c.orig_index + c.del.len() > orig.len() {
            Err(chunk_end_past_end_msg(path, c.orig_index, c.del.len() as int, orig.len() as int))
        } else {
            rebuild_from(
                orig,
                chunks,
                k + 1,
                c.orig_index + c.del.len(),
                dest + orig.subrange(cursor, c.orig_index) + c.ins,
                path,
            )
        }
    }
}

/// The new text of a file after `chunks` are applied to `text`.
pub open spec fn updated_file_spec(text: Seq<char>, chunks: Seq<ChunkSpec>, path: Seq<char>) -> Result<Seq<char>, Seq<char>> {
    match rebuild_from(split_spec(text, '\n'), chunks, 0, 0, Seq::empty(), path) {
        Ok(d) => Ok(join_spec(d, '\n')),
        Err(e) => Err(e),
    }
}

fn push_lines(dest: &mut Vec<Vec<char>>, src: &Vec<Vec<char>>, from: usize, to: usize)
    requires
        from <= to <= src.len(),
    ensures
        lines_view(final(dest)@) == lines_view(old(dest)@) + lines_view(src@).subrange(from as int, to as int),
{
    let mut i: usize = from;
    while i < to
        invariant
            from <= i <= to <= src.len(),
            lines_view(dest@) == lines_view(old(dest)@) + lines_view(src@).subrange(from as int, i as int),
        decreases to - i,
    {
        let ghost prev = lines_view(dest@);
        dest.push(copy_chars(&src[i]));
        assert(lines_view(dest@) =~= prev.push(src@[i as int]@));
        i += 1;
        assert(lines_view(dest@) =~= lines_view(old(dest)@) + lines_view(src@).subrange(from as int, i as int));
    }
}

fn diff_error(msg: Vec<char>) -> (r: DiffError)
    ensures
        r.0@ == msg@,
{
    DiffError(string_of(&msg))
}

/// Applies the chunks of an update to the file text `text`.
pub fn get_updated_file(text: &Vec<char>, chunks: &Vec<Chunk>, path: &Vec<char>) -> (r: Result<Vec<char>, DiffError>)
    ensures
        match r {
            Ok(t) => updated_file_spec(text@, chunks_view(chunks@), path@) == Ok::<Seq<char>, Seq<char>>(t@),
            Err(e) => updated_file_spec(text@, chunks_view(chunks@), path@) == Err::<Seq<char>, Seq<char>>(e.0@),
        },
{
    let orig = split_chars(text, '\n');
    let ghost ov = lines_view(orig@);
    let ghost cv = chunks_view(chunks@);
    let mut dest: Vec<Vec<char>> = Vec::new();
    let mut cursor: usize = 0;
    let mut k: usize = 0;
    while k < chunks.len()
        invariant
            k <= chunks.len(),
            cursor <= orig.len(),
            ov == lines_view(orig@),
            ov == split_spec(text@, '\n'),
            cv == chunks_view(chunks@),
            rebuild_from(ov, cv, 0, 0, Seq::empty(), path@) == rebuild_from(ov, cv, k as int, cursor as int, lines_view(dest@), path@),
        decreases chunks.len() - k,
    {
        let c = &chunks[k];
        assert(cv[k as int] == c.view());
        if c.orig_index > orig.len() {
            let mut m: Vec<char> = Vec::new();
            push_all(&mut m, path);
            push_str_chars(&mut m, ": chunk.orig_index ");
            push_decimal(&mut m, (c.orig_index) as u128);
            push_str_chars(&mut m, " > len(lines) ");
            push_decimal(&mut m, (orig.len()) as u128);
            assert(m@ =~= chunk_past_end_msg(path@, c.orig_index as int, orig.len() as int));
            return Err(diff_error(m));
        }
        if cursor > c.orig_index {
            let mut m: Vec<char> = Vec::new();
            push_all(&mut m, path);
            push_str_chars(&mut m, ": orig_index ");
            push_decimal(&mut m, (cursor) as u128);
            push_str_chars(&mut m, " > chunk.orig_index ");
            push_decimal(&mut m, (c.orig_index) as u128);
            assert(m@ =~= chunk_out_of_order_msg(path@, cursor as int, c.orig_index as int));
            return Err(diff_error(m));
        }
        if c.del_lines.len() > orig.len() - c.orig_index {
            let mut m: Vec<char> = Vec::new();
            push_all(&mut m, path);
            push_str_chars(&mut m, ": chunk.orig_index ");
            push_decimal(&mut m, (c.orig_index) as u128);
            push_str_chars(&mut m, " deletes ");
            push_decimal(&mut m, (c.del_lines.len()) as u128);
            push_str_chars(&mut m, " lines past len(lines) ");
            push_decimal(&mut m, (orig.len()) as u128);
            assert(m@ =~= chunk_end_past_end_msg(path@, c.orig_index as int, c.del_lines.len() as int, orig.len() as int));
            return Err(diff_error(m));
        }
        let ghost d0 = lines_view(dest@);
        push_lines(&mut dest, &orig, cursor, c.orig_index);
        push_lines(&mut dest, &c.ins_lines, 0, c.ins_lines.len());
        assert(lines_view(c.ins_lines@).subrange(0, c.ins_lines.len() as int) =~= lines_view(c.ins_lines@));
        assert(lines_view(dest@) =~= d0 + ov.subrange(cursor as int, c.orig_index as int) + c.view().ins);
        cursor = c.orig_index + c.del_lines.len();
        k += 1;
    }
    push_lines(&mut dest, &orig, cursor, orig.len());
    let out = join_chars(&dest, '\n');
    Ok(out)
}


/// `s` begins with `p`.
pub open spec fn starts(s: Seq<char>, p: Seq<char>) -> bool {
    p.len() <= s.len() && s.subrange(0, p.len() as int) == p
}

/// Whether `s` begins with the characters of `lit`.
pub fn starts_lit(s: &Vec<char>, lit: &str) -> (r: bool)
    ensures
        r == starts(s@, lit@),
{
    let p = chars_of(lit);
    starts_with_chars(s, &p)
}

/// Whether `s` holds exactly the characters of `lit`.
pub fn is_lit(s: &Vec<char>, lit: &str) -> (r: bool)
    ensures
        r == (s@ == lit@),
{
    let p = chars_of(lit);
    eq_chars(s, &p)
}

/// A line that closes the body of a section.
pub open spec fn is_section_end(l: Seq<char>) -> bool {
    starts(l, "@@"@) || starts(l, "*** End Patch"@) || starts(l, "*** Update File:"@)
        || starts(l, "*** Delete File:"@) || starts(l, "*** Add File:"@)
        || starts(l, "*** End of File"@) || l == "***"@
}

/// `chunks` with the pending deletions and insertions appended as one chunk,
/// if there are any.
pub open spec fn flush_spec(old_len: int, del: Seq<Seq<char>>, ins: Seq<Seq<char>>, chunks: Seq<ChunkSpec>) -> Seq<ChunkSpec> {
    if ins.len() > 0 || del.len() > 0 {
        chunks.push(ChunkSpec { orig_index: old_len - del.len(), del, ins })
    } else {
        chunks
    }
}

pub open spec fn invalid_line_msg(s: Seq<char>) -> Seq<char> {
    "Invalid Line: "@ + s
}

/// Reads the body of a section from line `i` on. `old` collects the
/// old-side lines (kept and deleted), `del` and `ins` the pending change,
/// `mode` the kind of the previous line (0 keep, 1 insert, 2 delete).
pub open spec fn section_from(
    lines: Seq<Seq<char>>,
    i: int,
    old: Seq<Seq<char>>,
    del: Seq<Seq<char>>,
    ins: Seq<Seq<char>>,
    chunks: Seq<ChunkSpec>,
    mode: int,
) -> Result<(Seq<Seq<char>>, Seq<ChunkSpec>, int), Seq<char>>
    decreases lines.len() - i,
{
    if 0 <= i < lines.len() && !is_section_end(lines[i]) {
        let s = lines[i];
        let lc = if s.len() == 0 { seq![' '] } else { s };
        let c0 = lc[0];
        if starts(s, "***"@) || (c0 != '+' && c0 != '-' && c0 != ' ') {
            Err(invalid_line_msg(s))
        } else {
            let content = lc.drop_first();
            let m: int = if c0 == '+' { 1 } else if c0 == '-' { 2 } else { 0 };
            let fl = m == 0 && mode != 0;
            let chunks2 = if fl { flush_spec(old.len() as int, del, ins, chunks) } else { chunks };
            let del2 = if fl { Seq::empty() } else { del };
            let ins2 = if fl { Seq::empty() } else { ins };
            if m == 1 {
                section_from(lines, i + 1, old, del2, ins2.push(content), chunks2, m)
            } else if m == 2 {
                section_from(lines, i + 1, old.push(content), del2.push(content), ins2, chunks2, m)
            } else {
                section_from(lines, i + 1, old.push(content), del2, ins2, chunks2, m)
            }
        }
    } else {
        Ok((old, flush_spec(old.len() as int, del, ins, chunks), i))
    }
}

pub ghost struct SectionSpec {
    pub context: Seq<Seq<char>>,
    pub chunks: Seq<ChunkSpec>,
    pub end: int,
    pub eof: bool,
}

pub open spec fn line_at(lines: Seq<Seq<char>>, k: int) -> Seq<char> {
    if 0 <= k < lines.len() { lines[k] } else { Seq::empty() }
}

pub open spec fn empty_section_msg(lines: Seq<Seq<char>>, k: int) -> Seq<char> {
    "Nothing in this section - index="@ + decimal(k as nat) + " "@ + line_at(lines, k)
}

/// The section whose body starts at line `start`: its old-side lines, its
/// chunks (with section-local line numbers), where it ends, and whether it
/// was closed by `*** End of File`.
pub open spec fn section_spec(lines: Seq<Seq<char>>, start: int) -> Result<SectionSpec, Seq<char>> {
    match section_from(lines, start, Seq::empty(), Seq::empty(), Seq::empty(), Seq::empty(), 0) {
        Err(e) => Err(e),
        Ok(r) => {
            let idx = r.2;
            let eof = 0 <= idx < lines.len() && lines[idx] == "*** End of File"@;
            let end = if eof { idx + 1 } else { idx };
            if end == start {
                Err(empty_section_msg(lines, end))
            } else {
                Ok(SectionSpec { context: r.0, chunks: r.1, end, eof })
            }
        },
    }
}

/// One parsed section.
pub struct Section {
    pub context: Vec<Vec<char>>,
    pub chunks: Vec<Chunk>,
    pub end: usize,
    pub eof: bool,
}

impl Section {
    pub open spec fn view(&self) -> SectionSpec {
        SectionSpec { context: lines_view(self.context@), chunks: chunks_view(self.chunks@), end: self.end as int, eof: self.eof }
    }
}

fn flush_exec(old_len: usize, del: &mut Vec<Vec<char>>, ins: &mut Vec<Vec<char>>, chunks: &mut Vec<Chunk>)
    requires
        old(del).len() <= old_len,
    ensures
        chunks_view(final(chunks)@) == flush_spec(old_len as int, lines_view(old(del)@), lines_view(old(ins)@), chunks_view(old(chunks)@)),
        final(del)@.len() == 0,
        final(ins)@.len() == 0,
{
    if ins.len() > 0 || del.len() > 0 {
        let d = del.split_off(0);
        let n = ins.split_off(0);
        assert(d@ =~= old(del)@);
        assert(n@ =~= old(ins)@);
        let c = Chunk { orig_index: old_len - d.len(), del_lines: d, ins_lines: n };
        let ghost prev = chunks_view(chunks@);
        chunks.push(c);
        assert(chunks_view(chunks@) =~= prev.push(c.view()));
    } else {
        assert(lines_view(del@) =~= Seq::<Seq<char>>::empty());
        assert(lines_view(ins@) =~= Seq::<Seq<char>>::empty());
    }
}

fn push_line(v: &mut Vec<Vec<char>>, l: Vec<char>)
    ensures
        lines_view(final(v)@) == lines_view(old(v)@).push(l@),
{
    let ghost prev = lines_view(v@);
    let ghost lv = l@;
    v.push(l);
    assert(lines_view(v@) =~= prev.push(lv));
}

/// Reads the section whose body starts at line `start` of the patch.
pub fn peek_next_section(lines: &Vec<Vec<char>>, start: usize) -> (r: Result<Section, DiffError>)
    ensures
        match r {
            Ok(sec) => section_spec(lines_view(lines@), start as int) == Ok::<SectionSpec, Seq<char>>(sec.view())
                && start < sec.end <= lines.len(),
            Err(e) => section_spec(lines_view(lines@), start as int) == Err::<SectionSpec, Seq<char>>(e.0@),
        },
{
    let ghost lv = lines_view(lines@);
    if start >= lines.len() {
        let mut m: Vec<char> = Vec::new();
        push_str_chars(&mut m, "Nothing in this section - index=");
        push_decimal(&mut m, (start) as u128);
        push_str_chars(&mut m, " ");
        assert(m@ =~= empty_section_msg(lv, start as int));
        assert(flush_spec(0, Seq::empty(), Seq::empty(), Seq::empty()) == Seq::<ChunkSpec>::empty());
        return Err(diff_error(m));
    }
    let mut old: Vec<Vec<char>> = Vec::new();
    let mut del: Vec<Vec<char>> = Vec::new();
    let mut ins: Vec<Vec<char>> = Vec::new();
    let mut chunks: Vec<Chunk> = Vec::new();
    let mut mode: u8 = 0;
    let mut i: usize = start;
    proof {
        assert(lines_view(old@) =~= Seq::<Seq<char>>::empty());
        assert(lines_view(del@) =~= Seq::<Seq<char>>::empty());
        assert(lines_view(ins@) =~= Seq::<Seq<char>>::empty());
        assert(chunks_view(chunks@) =~= Seq::<ChunkSpec>::empty());
    }
    while i < lines.len()
        invariant
            lv == lines_view(lines@),
            mode <= 2,
            del.len() <= old.len(),
            start <= i <= lines.len(),
            section_from(lv, start as int, Seq::empty(), Seq::empty(), Seq::empty(), Seq::empty(), 0)
                == section_from(lv, i as int, lines_view(old@), lines_view(del@), lines_view(ins@), chunks_view(chunks@), mode as int),
        ensures
            start <= i <= lines.len(),
            del.len() <= old.len(),
            i < lines.len() ==> is_section_end(lv[i as int]),
            section_from(lv, start as int, Seq::empty(), Seq::empty(), Seq::empty(), Seq::empty(), 0)
                == section_from(lv, i as int, lines_view(old@), lines_view(del@), lines_view(ins@), chunks_view(chunks@), mode as int),
        decreases lines.len() - i,
    {
        let s = &lines[i];
        if starts_lit(s, "@@") || starts_lit(s, "*** End Patch") || starts_lit(s, "*** Update File:")
            || starts_lit(s, "*** Delete File:") || starts_lit(s, "*** Add File:")
            || starts_lit(s, "*** End of File") || is_lit(s, "***") {
            break;
        }
        let c0: char = if s.len() == 0 { ' ' } else { s[0] };
        if starts_lit(s, "***") || (c0 != '+' && c0 != '-' && c0 != ' ') {
            let mut m: Vec<char> = Vec::new();
            push_str_chars(&mut m, "Invalid Line: ");
            push_all(&mut m, s);
            return Err(diff_error(m));
        }
        let mut content: Vec<char> = Vec::new();
        let mut j: usize = 1;
        while j < s.len()
            invariant
                1 <= j,
                s.len() == 0 || j <= s.len(),
                s.len() > 0 ==> content@ == s@.subrange(1, j as int),
                s.len() == 0 ==> content@.len() == 0,
            decreases s.len() - j,
        {
            content.push(s[j]);
            j += 1;
            assert(content@ =~= s@.subrange(1, j as int));
        }
        proof {
            let lc = if s@.len() == 0 { seq![' '] } else { s@ };
            assert(content@ =~= lc.drop_first());
        }
        let m: u8 = if c0 == '+' { 1 } else if c0 == '-' { 2 } else { 0 };
        if m == 0 && mode != 0 {
            flush_exec(old.len(), &mut del, &mut ins, &mut chunks);
            assert(lines_view(del@) =~= Seq::<Seq<char>>::empty());
            assert(lines_view(ins@) =~= Seq::<Seq<char>>::empty());
        }
        if m == 1 {
            push_line(&mut ins, content);
        } else if m == 2 {
            push_line(&mut old, copy_chars(&content));
            push_line(&mut del, content);
        } else {
            push_line(&mut old, content);
        }
        mode = m;
        i += 1;
    }
    let ghost oldv = lines_view(old@);
    let ghost delv = lines_view(del@);
    let ghost insv = lines_view(ins@);
    let ghost chv = chunks_view(chunks@);
    flush_exec(old.len(), &mut del, &mut ins, &mut chunks);
    assert(section_from(lv, i as int, oldv, delv, insv, chv, mode as int) == Ok::<(Seq<Seq<char>>, Seq<ChunkSpec>, int), Seq<char>>((oldv, chunks_view(chunks@), i as int)));
    let mut end = i;
    let mut eof = false;
    if i < lines.len() && is_lit(&lines[i], "*** End of File") {
        end = i + 1;
        eof = true;
    }
    if end == start {
        let mut m: Vec<char> = Vec::new();
        push_str_chars(&mut m, "Nothing in this section - index=");
        push_decimal(&mut m, (end) as u128);
        push_str_chars(&mut m, " ");
        if end < lines.len() {
            push_all(&mut m, &lines[end]);
        }
        assert(m@ =~= empty_section_msg(lv, end as int));
        return Err(diff_error(m));
    }
    Ok(Section { context: old, chunks, end, eof })
}


/// `a + b`, capped at the largest `usize`.
pub open spec fn sat_add(a: int, b: int) -> int {
    if a + b > usize::MAX { usize::MAX as int } else { a + b }
}

/// `s` from position `n` on.
pub fn drop_chars(s: &Vec<char>, n: usize) -> (r: Vec<char>)
    requires
        n <= s.len(),
    ensures
        r@ == s@.subrange(n as int, s@.len() as int),
{
    let mut r: Vec<char> = Vec::new();
    let mut i: usize = n;
    while i < s.len()
        invariant
            n <= i <= s.len(),
            r@ == s@.subrange(n as int, i as int),
        decreases s.len() - i,
    {
        r.push(s[i]);
        i += 1;
        assert(r@ =~= s@.subrange(n as int, i as int));
    }
    r
}

/// The first line at or after `i` equal to `target` (compared trimmed when
/// `trimmed`).
pub open spec fn first_line_eq(lines: Seq<Seq<char>>, target: Seq<char>, i: int, trimmed: bool) -> Option<int>
    decreases lines.len() - i,
{
    if i < 0 || i >= lines.len() {
        None
    } else if (if trimmed { trim_spec(lines[i]) == trim_spec(target) } else { lines[i] == target }) {
        Some(i)
    } else {
        first_line_eq(lines, target, i + 1, trimmed)
    }
}

/// Where the file cursor moves after a section header naming the anchor
/// `def`, and the fuzz that costs: just past the first line equal to the
/// anchor, else past the first line equal to it up to surrounding whitespace
/// (fuzz 1), else nowhere.
pub open spec fn anchor_spec(lines: Seq<Seq<char>>, def: Option<Seq<char>>, index: int) -> (int, nat) {
    match def {
        Some(d) => if trim_spec(d).len() == 0 {
            (index, 0)
        } else if first_line_eq(lines, d, index, false) is Some {
            (first_line_eq(lines, d, index, false)->0 + 1, 0)
        } else if first_line_eq(lines, d, index, true) is Some {
            (first_line_eq(lines, d, index, true)->0 + 1, 1)
        } else {
            (index, 0)
        },
        None => (index, 0),
    }
}

/// A line that ends the sections of an update.
pub open spec fn is_update_done(lines: Seq<Seq<char>>, i: int) -> bool {
    !(0 <= i < lines.len()) || starts(lines[i], "*** End Patch"@) || starts(lines[i], "*** Update File:"@)
        || starts(lines[i], "*** Delete File:"@) || starts(lines[i], "*** Add File:"@)
        || starts(lines[i], "*** End of File"@)
}

/// `chunks` moved down by `p` lines.
pub open spec fn rebase(chunks: Seq<ChunkSpec>, p: int) -> Seq<ChunkSpec> {
    Seq::new(chunks.len(), |k: int| ChunkSpec { orig_index: sat_add(chunks[k].orig_index, p), ..chunks[k] })
}

pub open spec fn invalid_context_msg(index: int, ctx: Seq<Seq<char>>) -> Seq<char> {
    "Invalid Context "@ + decimal(index as nat) + ":\n"@ + join_spec(ctx, '\n')
}

/// Reads the sections of an update from patch line `i` on, against the
/// target's lines `flines` with the file cursor at `findex`; yields the
/// chunks (with absolute line numbers), where the update ends, and the fuzz.
pub open spec fn update_from(
    lines: Seq<Seq<char>>,
    i: int,
    flines: Seq<Seq<char>>,
    findex: int,
    chunks: Seq<ChunkSpec>,
    fuzz: int,
) -> Result<(Seq<ChunkSpec>, int, int), Seq<char>>
    decreases lines.len() - i,
{
    if is_update_done(lines, i) {
        Ok((chunks, i, fuzz))
    } else {
        let l = lines[i];
        let has_def = starts(l, "@@ "@);
        let bare = !has_def && l == "@@"@;
        let p2 = if has_def || bare { i + 1 } else { i };
        if !has_def && !bare && findex != 0 {
            Err("Invalid Line:\n"@ + l)
        } else {
            let def = if has_def { Some(l.subrange("@@ "@.len() as int, l.len() as int)) } else { None };
            let a = anchor_spec(flines, def, findex);
            match section_spec(lines, p2) {
                Err(e) => Err(e),
                Ok(sec) => match find_context_spec(flines, sec.context, a.0, sec.eof) {
                    None => Err(invalid_context_msg(a.0, sec.context)),
                    Some(m) => if i < sec.end <= lines.len() {
                        update_from(
                            lines,
                            sec.end,
                            flines,
                            sat_add(m.0, sec.context.len() as int),
                            chunks + rebase(sec.chunks, m.0),
                            sat_add(sat_add(fuzz, a.1 as int), m.1 as int),
                        )
                    } else {
                        Err(Seq::empty())
                    },
                },
            }
        }
    }
}

/// Reads the body of an added file from patch line `i` on: `+` lines until
/// the next file header or the end of the patch.
pub open spec fn add_from(lines: Seq<Seq<char>>, i: int, acc: Seq<Seq<char>>) -> Result<(Seq<char>, int), Seq<char>>
    decreases lines.len() - i,
{
    if !(0 <= i < lines.len()) || starts(lines[i], "*** End Patch"@) || starts(lines[i], "*** Update File:"@)
        || starts(lines[i], "*** Delete File:"@) || starts(lines[i], "*** Add File:"@) {
        Ok((join_spec(acc, '\n'), i))
    } else if !starts(lines[i], "+"@) {
        Err("Invalid Add File Line: "@ + lines[i])
    } else {
        add_from(lines, i + 1, acc.push(lines[i].drop_first()))
    }
}

/// What a patch does to one path.
pub ghost enum ActionSpec {
    Add(Seq<char>),
    Delete,
    Update(Seq<ChunkSpec>, Option<Seq<char>>),
}

/// What a patch does to one path.
#[derive(Debug, Clone)]
pub enum PatchAction {
    Add { new_file: Vec<char> },
    Delete,
    Update { chunks: Vec<Chunk>, move_path: Option<Vec<char>> },
}

impl PatchAction {
    pub open spec fn view(&self) -> ActionSpec {
        match self {
            PatchAction::Add { new_file } => ActionSpec::Add(new_file@),
            PatchAction::Delete => ActionSpec::Delete,
            PatchAction::Update { chunks, move_path } => ActionSpec::Update(
                chunks_view(chunks@),
                match move_path { Some(m) => Some(m@), None => None },
            ),
        }
    }
}

pub open spec fn actions_view(v: Seq<(Vec<char>, PatchAction)>) -> Seq<(Seq<char>, ActionSpec)> {
    Seq::new(v.len(), |i: int| (v[i].0@, v[i].1.view()))
}

/// The action `a` moves its file to `p`.
pub open spec fn moves_to(a: ActionSpec, p: Seq<char>) -> bool {
    match a {
        ActionSpec::Update(_, Some(t)) => t == p,
        _ => false,
    }
}

/// `p` is already named by an action of `acts`: as its path, or as the
/// target that an update moves its file to.
pub open spec fn has_path(acts: Seq<(Seq<char>, ActionSpec)>, p: Seq<char>) -> bool {
    exists|i: int| 0 <= i < acts.len() && (#[trigger] acts[i]).0 == p || (0 <= i < acts.len() && moves_to(acts[i].1, p))
}

/// Parses file headers from patch line `i` on, collecting one action per
/// path in patch order, until `*** End Patch`.
pub open spec fn parse_from(
    lines: Seq<Seq<char>>,
    i: int,
    files: Map<Seq<char>, Seq<char>>,
    acts: Seq<(Seq<char>, ActionSpec)>,
    fuzz: int,
) -> Result<(Seq<(Seq<char>, ActionSpec)>, int), Seq<char>>
    decreases lines.len() - i,
{
    if !(0 <= i < lines.len()) || starts(lines[i], "*** End Patch"@) {
        if 0 <= i < lines.len() && lines[i] == "*** End Patch"@ {
            Ok((acts, fuzz))
        } else {
            Err("Missing End Patch"@)
        }
    } else {
        let l = lines[i];
        if starts(l, "*** Update File: "@) {
            let path = l.subrange("*** Update File: "@.len() as int, l.len() as int);
            if has_path(acts, path) {
                Err("Update File Error: Duplicate Path: "@ + path)
            } else {
                let mv = i + 1 < lines.len() && starts(lines[i + 1], "*** Move to: "@);
                let move_to = if mv {
                    Some(lines[i + 1].subrange("*** Move to: "@.len() as int, lines[i + 1].len() as int))
                } else {
                    None
                };
                let i2 = if mv { i + 2 } else { i + 1 };
                if mv && has_path(acts, move_to->0) {
                    Err("Update File Error: Duplicate Path: "@ + move_to->0)
                } else if !files.contains_key(path) {
                    Err("Update File Error: Missing File: "@ + path)
                } else {
                    match update_from(lines, i2, split_spec(files[path], '\n'), 0, Seq::empty(), fuzz) {
                        Err(e) => Err(e),
                        Ok(u) => if i < u.1 <= lines.len() {
                            parse_from(lines, u.1, files, acts.push((path, ActionSpec::Update(u.0, move_to))), u.2)
                        } else {
                            Err(Seq::empty())
                        },
                    }
                }
            }
        } else if starts(l, "*** Delete File: "@) {
            let path = l.subrange("*** Delete File: "@.len() as int, l.len() as int);
            if has_path(acts, path) {
                Err("Delete File Error: Duplicate Path: "@ + path)
            } else if !files.contains_key(path) {
                Err("Delete File Error: Missing File: "@ + path)
            } else {
                parse_from(lines, i + 1, files, acts.push((path, ActionSpec::Delete)), fuzz)
            }
        } else if starts(l, "*** Add File: "@) {
            let path = l.subrange("*** Add File: "@.len() as int, l.len() as int);
            if has_path(acts, path) {
                Err("Add File Error: Duplicate Path: "@ + path)
            } else {
                match add_from(lines, i + 1, Seq::empty()) {
                    Err(e) => Err(e),
                    Ok(a) => if i < a.1 <= lines.len() {
                        parse_from(lines, a.1, files, acts.push((path, ActionSpec::Add(a.0))), fuzz)
                    } else {
                        Err(Seq::empty())
                    },
                }
            }
        } else {
            Err("Unknown Line: "@ + l)
        }
    }
}


fn first_line_eq_exec(lines: &Vec<Vec<char>>, target: &Vec<char>, start: usize, trimmed: bool) -> (r: Option<usize>)
    ensures
        r matches Some(i) ==> first_line_eq(lines_view(lines@), target@, start as int, trimmed) == Some(i as int) && i < lines.len(),
        r is None ==> first_line_eq(lines_view(lines@), target@, start as int, trimmed) is None,
{
    let ghost lv = lines_view(lines@);
    let t = trim_line(target);
    let mut i: usize = start;
    while i < lines.len()
        invariant
            start <= i,
            lv == lines_view(lines@),
            t@ == trim_spec(target@),
            first_line_eq(lv, target@, start as int, trimmed) == first_line_eq(lv, target@, i as int, trimmed),
        decreases lines.len() - i,
    {
        let hit = if trimmed {
            let a = trim_line(&lines[i]);
            eq_chars(&a, &t)
        } else {
            eq_chars(&lines[i], target)
        };
        if hit {
            return Some(i);
        }
        i += 1;
    }
    None
}

fn rebase_chunks(chunks: Vec<Chunk>, p: usize, out: &mut Vec<Chunk>)
    ensures
        chunks_view(final(out)@) == chunks_view(old(out)@) + rebase(chunks_view(chunks@), p as int),
{
    let ghost cv = chunks_view(chunks@);
    let mut rest = chunks;
    let mut taken: Vec<Chunk> = Vec::new();
    let ghost base = chunks_view(out@);
    let mut i: usize = 0;
    let n = rest.len();
    while i < n
        invariant
            i <= n,
            n == cv.len(),
            rest@.len() == n,
            forall|k: int| i <= k < n ==> #[trigger] rest@[k].view() == cv[k],
            chunks_view(out@) == base + rebase(cv, p as int).subrange(0, i as int),
        decreases n - i,
    {
        let c = rest[i].clone_chunk();
        let moved = Chunk { orig_index: c.orig_index.saturating_add(p), del_lines: c.del_lines, ins_lines: c.ins_lines };
        let ghost prev = chunks_view(out@);
        out.push(moved);
        assert(chunks_view(out@) =~= prev.push(moved.view()));
        i += 1;
        assert(chunks_view(out@) =~= base + rebase(cv, p as int).subrange(0, i as int));
    }
    assert(rebase(cv, p as int).subrange(0, n as int) =~= rebase(cv, p as int));
}

fn copy_lines(v: &Vec<Vec<char>>) -> (r: Vec<Vec<char>>)
    ensures
        lines_view(r@) == lines_view(v@),
{
    let mut r: Vec<Vec<char>> = Vec::new();
    let mut i: usize = 0;
    while i < v.len()
        invariant
            i <= v.len(),
            lines_view(r@) == lines_view(v@).subrange(0, i as int),
        decreases v.len() - i,
    {
        push_line(&mut r, copy_chars(&v[i]));
        i += 1;
        assert(lines_view(r@) =~= lines_view(v@).subrange(0, i as int));
    }
    assert(lines_view(v@).subrange(0, v.len() as int) =~= lines_view(v@));
    r
}

impl Chunk {
    /// A copy of this chunk.
    pub fn clone_chunk(&self) -> (r: Chunk)
        ensures
            r.view() == self.view(),
    {
        Chunk { orig_index: self.orig_index, del_lines: copy_lines(&self.del_lines), ins_lines: copy_lines(&self.ins_lines) }
    }
}

/// Parser state over the lines of a patch.
struct Parser {
    lines: Vec<Vec<char>>,
    index: usize,
    actions: Vec<(Vec<char>, PatchAction)>,
    fuzz: usize,
}

impl Parser {
    /// A parser over `lines`, past the `*** Begin Patch` line.
    fn new(lines: Vec<Vec<char>>) -> (r: Self)
        ensures
            r.lines@ == lines@,
            r.index == 1,
            r.actions@.len() == 0,
            r.fuzz == 0,
    {
        Parser { lines, index: 1, actions: Vec::new(), fuzz: 0 }
    }

    /// Whether the cursor is past the end or on `*** End Patch`.
    fn is_done(&self) -> (r: bool)
        ensures
            r == (!(self.index < self.lines.len()) || starts(self.lines@[self.index as int]@, "*** End Patch"@)),
    {
        self.index >= self.lines.len() || starts_lit(&self.lines[self.index], "*** End Patch")
    }

    /// Consumes the current line if it begins with `prefix`, returning the
    /// rest of it.
    fn read_str(&mut self, prefix: &str) -> (r: Option<Vec<char>>)
        ensures
            final(self).lines == old(self).lines,
            final(self).actions == old(self).actions,
            final(self).fuzz == old(self).fuzz,
            ({
                let l = old(self).lines@[old(self).index as int]@;
                if old(self).index < old(self).lines.len() && starts(l, prefix@) {
                    &&& r matches Some(t) && t@ == l.subrange(prefix@.len() as int, l.len() as int)
                    &&& final(self).index == old(self).index + 1
                } else {
                    r is None && final(self).index == old(self).index
                }
            }),
    {
        if self.index >= self.lines.len() {
            return None;
        }
        let p = chars_of(prefix);
        if starts_with_chars(&self.lines[self.index], &p) {
            let t = drop_chars(&self.lines[self.index], p.len());
            self.index += 1;
            Some(t)
        } else {
            None
        }
    }

    fn has_action(&self, path: &Vec<char>) -> (r: bool)
        ensures
            r == has_path(actions_view(self.actions@), path@),
    {
        let ghost av = actions_view(self.actions@);
        let mut i: usize = 0;
        while i < self.actions.len()
            invariant
                i <= self.actions.len(),
                av == actions_view(self.actions@),
                forall|k: int| 0 <= k < i ==> av[k].0 != path@ && !moves_to(av[k].1, path@),
            decreases self.actions.len() - i,
        {
            assert(av[i as int] == (self.actions@[i as int].0@, self.actions@[i as int].1.view()));
            if eq_chars(&self.actions[i].0, path) {
                return true;
            }
            match &self.actions[i].1 {
                PatchAction::Update { move_path: Some(t), .. } => {
                    if eq_chars(t, path) {
                        return true;
                    }
                },
                _ => {},
            }
            i += 1;
        }
        false
    }

    fn push_action(&mut self, path: Vec<char>, a: PatchAction)
        ensures
            final(self).lines == old(self).lines,
            final(self).index == old(self).index,
            final(self).fuzz == old(self).fuzz,
            actions_view(final(self).actions@) == actions_view(old(self).actions@).push((path@, a.view())),
    {
        let ghost prev = actions_view(self.actions@);
        let ghost e = (path@, a.view());
        self.actions.push((path, a));
        assert(actions_view(self.actions@) =~= prev.push(e));
    }

    /// Parses every file header up to `*** End Patch`.
    fn parse(&mut self, files: &FileContents) -> (r: Result<(), DiffError>)
        requires
            files.wf(),
            old(self).index <= old(self).lines.len(),
        ensures
            final(self).lines == old(self).lines,
            match r {
                Ok(_) => parse_from(lines_view(old(self).lines@), old(self).index as int, files.view(), actions_view(old(self).actions@), old(self).fuzz as int)
                    == Ok::<(Seq<(Seq<char>, ActionSpec)>, int), Seq<char>>((actions_view(final(self).actions@), final(self).fuzz as int)),
                Err(e) => parse_from(lines_view(old(self).lines@), old(self).index as int, files.view(), actions_view(old(self).actions@), old(self).fuzz as int)
                    == Err::<(Seq<(Seq<char>, ActionSpec)>, int), Seq<char>>(e.0@),
            },
    {
        let ghost lv = lines_view(self.lines@);
        let ghost fm = files.view();
        while !self.is_done()
            invariant
                self.lines == old(self).lines,
                lv == lines_view(self.lines@),
                fm == files.view(),
                files.wf(),
                self.index <= self.lines.len(),
                parse_from(lv, old(self).index as int, fm, actions_view(old(self).actions@), old(self).fuzz as int)
                    == parse_from(lv, self.index as int, fm, actions_view(self.actions@), self.fuzz as int),
            decreases self.lines.len() - self.index,
        {
            let ghost i0 = self.index as int;
            match self.read_str("*** Update File: ") {
                Some(path) => {
                    if self.has_action(&path) {
                        let mut m: Vec<char> = Vec::new();
                        push_str_chars(&mut m, "Update File Error: Duplicate Path: ");
                        push_all(&mut m, &path);
                        return Err(diff_error(m));
                    }
                    let move_to = self.read_str("*** Move to: ");
                    match &move_to {
                        Some(t) => {
                            if self.has_action(t) {
                                let mut m: Vec<char> = Vec::new();
                                push_str_chars(&mut m, "Update File Error: Duplicate Path: ");
                                push_all(&mut m, t);
                                return Err(diff_error(m));
                            }
                        },
                        None => {},
                    }
                    let ps = string_of(&path);
                    let text = match files.get(ps.as_str()) {
                        Some(t) => chars_of(t.as_str()),
                        None => {
                            let mut m: Vec<char> = Vec::new();
                            push_str_chars(&mut m, "Update File Error: Missing File: ");
                            push_all(&mut m, &path);
                            return Err(diff_error(m));
                        },
                    };
                    let chunks = match self.parse_update_file(&text) {
                        Ok(c) => c,
                        Err(e) => { return Err(e); },
                    };
                    let a = PatchAction::Update { chunks, move_path: move_to };
                    self.push_action(path, a);
                    continue;
                },
                None => {},
            }
            match self.read_str("*** Delete File: ") {
                Some(path) => {
                    if self.has_action(&path) {
                        let mut m: Vec<char> = Vec::new();
                        push_str_chars(&mut m, "Delete File Error: Duplicate Path: ");
                        push_all(&mut m, &path);
                        return Err(diff_error(m));
                    }
                    let ps = string_of(&path);
                    if files.get(ps.as_str()).is_none() {
                        let mut m: Vec<char> = Vec::new();
                        push_str_chars(&mut m, "Delete File Error: Missing File: ");
                        push_all(&mut m, &path);
                        return Err(diff_error(m));
                    }
                    self.push_action(path, PatchAction::Delete);
                    continue;
                },
                None => {},
            }
            match self.read_str("*** Add File: ") {
                Some(path) => {
                    if self.has_action(&path) {
                        let mut m: Vec<char> = Vec::new();
                        push_str_chars(&mut m, "Add File Error: Duplicate Path: ");
                        push_all(&mut m, &path);
                        return Err(diff_error(m));
                    }
                    let body = match self.parse_add_file() {
                        Ok(b) => b,
                        Err(e) => { return Err(e); },
                    };
                    self.push_action(path, PatchAction::Add { new_file: body });
                    continue;
                },
                None => {},
            }
            let mut m: Vec<char> = Vec::new();
            push_str_chars(&mut m, "Unknown Line: ");
            push_all(&mut m, &self.lines[self.index]);
            return Err(diff_error(m));
        }
        if self.index >= self.lines.len() || !is_lit(&self.lines[self.index], "*** End Patch") {
            return Err(diff_error(chars_of("Missing End Patch")));
        }
        self.index += 1;
        Ok(())
    }

    fn update_done(&self) -> (r: bool)
        ensures
            r == is_update_done(lines_view(self.lines@), self.index as int),
    {
        if self.index >= self.lines.len() {
            return true;
        }
        let l = &self.lines[self.index];
        starts_lit(l, "*** End Patch") || starts_lit(l, "*** Update File:") || starts_lit(l, "*** Delete File:")
            || starts_lit(l, "*** Add File:") || starts_lit(l, "*** End of File")
    }

    /// Reads the sections of an update against the target text `text`.
    fn parse_update_file(&mut self, text: &Vec<char>) -> (r: Result<Vec<Chunk>, DiffError>)
        requires
            old(self).index <= old(self).lines.len(),
        ensures
            final(self).lines == old(self).lines,
            r is Ok ==> old(self).index <= final(self).index <= final(self).lines.len(),
            final(self).actions == old(self).actions,
            match r {
                Ok(ch) => update_from(lines_view(old(self).lines@), old(self).index as int, split_spec(text@, '\n'), 0, Seq::empty(), old(self).fuzz as int)
                    == Ok::<(Seq<ChunkSpec>, int, int), Seq<char>>((chunks_view(ch@), final(self).index as int, final(self).fuzz as int)),
                Err(e) => update_from(lines_view(old(self).lines@), old(self).index as int, split_spec(text@, '\n'), 0, Seq::empty(), old(self).fuzz as int)
                    == Err::<(Seq<ChunkSpec>, int, int), Seq<char>>(e.0@),
            },
    {
        let ghost lv = lines_view(self.lines@);
        let flines = split_chars(text, '\n');
        let ghost fv = lines_view(flines@);
        let mut index: usize = 0;
        let mut chunks: Vec<Chunk> = Vec::new();
        assert(chunks_view(chunks@) =~= Seq::<ChunkSpec>::empty());
        while !self.update_done()
            invariant
                self.lines == old(self).lines,
                self.actions == old(self).actions,
                lv == lines_view(self.lines@),
                fv == lines_view(flines@),
                fv == split_spec(text@, '\n'),
                old(self).index <= self.index <= self.lines.len(),
                update_from(lv, old(self).index as int, fv, 0, Seq::empty(), old(self).fuzz as int)
                    == update_from(lv, self.index as int, fv, index as int, chunks_view(chunks@), self.fuzz as int),
            decreases self.lines.len() - self.index,
        {
            let ghost i0 = self.index as int;
            let l = copy_chars(&self.lines[self.index]);
            let has_def = starts_lit(&l, "@@ ");
            let bare = !has_def && is_lit(&l, "@@");
            if !has_def && !bare && index != 0 {
                let mut m: Vec<char> = Vec::new();
                push_str_chars(&mut m, "Invalid Line:\n");
                push_all(&mut m, &l);
                return Err(diff_error(m));
            }
            if has_def || bare {
                self.index += 1;
            }
            let mut fi: usize = index;
            let mut af: usize = 0;
            let ghost def: Option<Seq<char>> = None;
            if has_def {
                let pre = chars_of("@@ ");
                let d = drop_chars(&l, pre.len());
                proof { def = Some(d@); }
                let t = trim_line(&d);
                if t.len() > 0 {
                    match first_line_eq_exec(&flines, &d, index, false) {
                        Some(k) => { fi = k + 1; },
                        None => {
                            match first_line_eq_exec(&flines, &d, index, true) {
                                Some(k) => { fi = k + 1; af = 1; },
                                None => {},
                            }
                        },
                    }
                }
            }
            assert(anchor_spec(fv, def, index as int) == (fi as int, af as nat));
            let sec = match peek_next_section(&self.lines, self.index) {
                Ok(sec) => sec,
                Err(e) => { return Err(e); },
            };
            match find_context(&flines, &sec.context, fi, sec.eof) {
                None => {
                    let mut m: Vec<char> = Vec::new();
                    push_str_chars(&mut m, "Invalid Context ");
                    push_decimal(&mut m, (fi) as u128);
                    push_str_chars(&mut m, ":\n");
                    let j = join_chars(&sec.context, '\n');
                    push_all(&mut m, &j);
                    assert(m@ =~= invalid_context_msg(fi as int, lines_view(sec.context@)));
                    return Err(diff_error(m));
                },
                Some(found) => {
                    let (ni, f) = found;
                    self.fuzz = self.fuzz.saturating_add(af).saturating_add(f);
                    rebase_chunks(sec.chunks, ni, &mut chunks);
                    index = ni.saturating_add(sec.context.len());
                    self.index = sec.end;
                },
            }
        }
        Ok(chunks)
    }

    /// Reads the body of an added file.
    fn parse_add_file(&mut self) -> (r: Result<Vec<char>, DiffError>)
        requires
            old(self).index <= old(self).lines.len(),
        ensures
            r is Ok ==> old(self).index <= final(self).index <= final(self).lines.len(),
            final(self).lines == old(self).lines,
            final(self).actions == old(self).actions,
            final(self).fuzz == old(self).fuzz,
            match r {
                Ok(body) => add_from(lines_view(old(self).lines@), old(self).index as int, Seq::empty())
                    == Ok::<(Seq<char>, int), Seq<char>>((body@, final(self).index as int)),
                Err(e) => add_from(lines_view(old(self).lines@), old(self).index as int, Seq::empty())
                    == Err::<(Seq<char>, int), Seq<char>>(e.0@),
            },
    {
        let ghost lv = lines_view(self.lines@);
        let mut acc: Vec<Vec<char>> = Vec::new();
        assert(lines_view(acc@) =~= Seq::<Seq<char>>::empty());
        loop
            invariant
                self.lines == old(self).lines,
                self.actions == old(self).actions,
                self.fuzz == old(self).fuzz,
                lv == lines_view(self.lines@),
                old(self).index <= self.index <= self.lines.len(),
                add_from(lv, old(self).index as int, Seq::empty()) == add_from(lv, self.index as int, lines_view(acc@)),
            ensures
                old(self).index <= self.index <= self.lines.len(),
                self.lines == old(self).lines,
                self.actions == old(self).actions,
                self.fuzz == old(self).fuzz,
                add_from(lv, old(self).index as int, Seq::empty()) == add_from(lv, self.index as int, lines_view(acc@)),
                add_from(lv, self.index as int, lines_view(acc@)) == Ok::<(Seq<char>, int), Seq<char>>((join_spec(lines_view(acc@), '\n'), self.index as int)),
            decreases self.lines.len() - self.index,
        {
            if self.index >= self.lines.len() {
                break;
            }
            let l = &self.lines[self.index];
            if starts_lit(l, "*** End Patch") || starts_lit(l, "*** Update File:") || starts_lit(l, "*** Delete File:")
                || starts_lit(l, "*** Add File:") {
                break;
            }
            proof { reveal_strlit("+"); }
            if !starts_lit(l, "+") {
                let mut m: Vec<char> = Vec::new();
                push_str_chars(&mut m, "Invalid Add File Line: ");
                push_all(&mut m, l);
                return Err(diff_error(m));
            }
            let rest = drop_chars(l, 1);
            assert(rest@ =~= l@.drop_first());
            push_line(&mut acc, rest);
            self.index += 1;
        }
        Ok(join_chars(&acc, '\n'))
    }
}


/// Applies the parsed actions `acts[k..]` in patch order on top of `acc`:
/// a deletion maps its path to `None`, an addition to its body, an update to
/// the file's new text (under the move target, with the old path deleted,
/// when it moves).
pub open spec fn apply_from(
    acts: Seq<(Seq<char>, ActionSpec)>,
    k: int,
    files: Map<Seq<char>, Seq<char>>,
    acc: Map<Seq<char>, Option<Seq<char>>>,
) -> Result<Map<Seq<char>, Option<Seq<char>>>, Seq<char>>
    decreases acts.len() - k,
{
    if k < 0 || k >= acts.len() {
        Ok(acc)
    } else {
        let path = acts[k].0;
        match acts[k].1 {
            ActionSpec::Delete => apply_from(acts, k + 1, files, acc.insert(path, None)),
            ActionSpec::Add(body) => apply_from(acts, k + 1, files, acc.insert(path, Some(body))),
            ActionSpec::Update(chunks, mv) => match updated_file_spec(files[path], chunks, path) {
                Err(e) => Err(e),
                Ok(new_text) => match mv {
                    Some(target) => apply_from(acts, k + 1, files, acc.insert(path, None).insert(target, Some(new_text))),
                    None => apply_from(acts, k + 1, files, acc.insert(path, Some(new_text))),
                },
            },
        }
    }
}

/// Every update in `acts` names a file present in `files`.
pub open spec fn updates_known(acts: Seq<(Seq<char>, ActionSpec)>, files: Map<Seq<char>, Seq<char>>) -> bool {
    forall|k: int| 0 <= k < acts.len() && (#[trigger] acts[k]).1 is Update ==> files.contains_key(acts[k].0)
}

/// Parsing only records updates of files it was given.
pub proof fn lemma_parse_updates_known(
    lines: Seq<Seq<char>>,
    i: int,
    files: Map<Seq<char>, Seq<char>>,
    acts: Seq<(Seq<char>, ActionSpec)>,
    fuzz: int,
)
    requires
        updates_known(acts, files),
    ensures
        parse_from(lines, i, files, acts, fuzz) matches Ok(p) ==> updates_known(p.0, files),
    decreases lines.len() - i,
{
    if !(0 <= i < lines.len()) || starts(lines[i], "*** End Patch"@) {
    } else {
        let l = lines[i];
        if starts(l, "*** Update File: "@) {
            let path = l.subrange("*** Update File: "@.len() as int, l.len() as int);
            let mv = i + 1 < lines.len() && starts(lines[i + 1], "*** Move to: "@);
            let move_to = if mv {
                Some(lines[i + 1].subrange("*** Move to: "@.len() as int, lines[i + 1].len() as int))
            } else {
                None
            };
            if !has_path(acts, path) && !(mv && has_path(acts, move_to->0)) && files.contains_key(path) {
                let i2 = if mv { i + 2 } else { i + 1 };
                match update_from(lines, i2, split_spec(files[path], '\n'), 0, Seq::empty(), fuzz) {
                    Err(e) => {},
                    Ok(u) => if i < u.1 <= lines.len() {
                        let acts2 = acts.push((path, ActionSpec::Update(u.0, move_to)));
                        assert(updates_known(acts2, files)) by {
                            assert forall|k: int| 0 <= k < acts2.len() && (#[trigger] acts2[k]).1 is Update implies files.contains_key(acts2[k].0) by {
                                if k < acts.len() {
                                    assert(acts2[k] == acts[k]);
                                }
                            }
                        }
                        lemma_parse_updates_known(lines, u.1, files, acts2, u.2);
                    },
                }
            }
        } else if starts(l, "*** Delete File: "@) {
            let path = l.subrange("*** Delete File: "@.len() as int, l.len() as int);
            let acts2 = acts.push((path, ActionSpec::Delete));
            assert(updates_known(acts2, files)) by {
                assert forall|k: int| 0 <= k < acts2.len() && (#[trigger] acts2[k]).1 is Update implies files.contains_key(acts2[k].0) by {
                    if k < acts.len() {
                        assert(acts2[k] == acts[k]);
                    }
                }
            }
            lemma_parse_updates_known(lines, i + 1, files, acts2, fuzz);
        } else if starts(l, "*** Add File: "@) {
            match add_from(lines, i + 1, Seq::empty()) {
                Err(e) => {},
                Ok(a) => if i < a.1 <= lines.len() {
                    let path = l.subrange("*** Add File: "@.len() as int, l.len() as int);
                    let acts2 = acts.push((path, ActionSpec::Add(a.0)));
                    assert(updates_known(acts2, files)) by {
                        assert forall|k: int| 0 <= k < acts2.len() && (#[trigger] acts2[k]).1 is Update implies files.contains_key(acts2[k].0) by {
                            if k < acts.len() {
                                assert(acts2[k] == acts[k]);
                            }
                        }
                    }
                    lemma_parse_updates_known(lines, a.1, files, acts2, fuzz);
                },
            }
        }
    }
}

/// The lines of a patch text: trimmed, then split at `'\n'`.
pub open spec fn patch_lines(text: Seq<char>) -> Seq<Seq<char>> {
    split_spec(trim_spec(text), '\n')
}

/// The whole patch engine: the total fuzz and the new contents (or `None`
/// for a deletion) of every path the patch touches, given the earlier
/// contents `files`.
pub open spec fn process_patch_spec(text: Seq<char>, files: Map<Seq<char>, Seq<char>>) -> Result<(int, Map<Seq<char>, Option<Seq<char>>>), Seq<char>> {
    if !starts(text, "*** Begin Patch"@) {
        Err("Invalid patch text"@)
    } else if patch_lines(text).last() != "*** End Patch"@ {
        Err("Missing End Patch"@)
    } else {
        match parse_from(patch_lines(text), 1, files, Seq::empty(), 0) {
            Err(e) => Err(e),
            Ok(p) => match apply_from(p.0, 0, files, Map::empty()) {
                Err(e) => Err(e),
                Ok(m) => Ok((p.1, m)),
            },
        }
    }
}

/// Parses `text` and applies it to `orig_files`. On success returns
/// `"Done!"`, the total fuzz used to place the sections, and for each path
/// its new contents or `None` where the file is deleted.
pub fn process_patch(text: &str, orig_files: FileContents) -> (r: Result<(String, usize, FileChanges), DiffError>)
    requires
        orig_files.wf(),
    ensures
        match r {
            Ok(res) => res.0@ == "Done!"@ && res.2.wf()
                && process_patch_spec(text@, orig_files.view()) == Ok::<(int, Map<Seq<char>, Option<Seq<char>>>), Seq<char>>((res.1 as int, res.2.view())),
            Err(e) => process_patch_spec(text@, orig_files.view()) == Err::<(int, Map<Seq<char>, Option<Seq<char>>>), Seq<char>>(e.0@),
        },
{
    let chars = chars_of(text);
    if !starts_lit(&chars, "*** Begin Patch") {
        return Err(diff_error(chars_of("Invalid patch text")));
    }
    let trimmed = trim_line(&chars);
    let lines = split_chars(&trimmed, '\n');
    proof { crate::text::lemma_split_nonempty(trimmed@, '\n'); }
    if !is_lit(&lines[lines.len() - 1], "*** End Patch") {
        return Err(diff_error(chars_of("Missing End Patch")));
    }
    let ghost lv = lines_view(lines@);
    assert(lv.last() == lines@[lines.len() - 1]@);
    let mut parser = Parser::new(lines);
    proof {
        assert(actions_view(parser.actions@) =~= Seq::<(Seq<char>, ActionSpec)>::empty());
    }
    match parser.parse(&orig_files) {
        Ok(_) => {},
        Err(e) => { return Err(e); },
    }
    let ghost acts = actions_view(parser.actions@);
    assert(patch_lines(text@) == lv);
    assert(parse_from(lv, 1, orig_files.view(), Seq::empty(), 0) == Ok::<(Seq<(Seq<char>, ActionSpec)>, int), Seq<char>>((acts, parser.fuzz as int)));
    proof {
        lemma_parse_updates_known(lv, 1, orig_files.view(), Seq::empty(), 0);
    }
    let mut result = FileChanges::new();
    let mut k: usize = 0;
    while k < parser.actions.len()
        invariant
            k <= parser.actions.len(),
            acts == actions_view(parser.actions@),
            orig_files.wf(),
            result.wf(),
            updates_known(acts, orig_files.view()),
            process_patch_spec(text@, orig_files.view()) == (match apply_from(acts, 0, orig_files.view(), Map::empty()) {
                Err(e) => Err(e),
                Ok(m) => Ok::<(int, Map<Seq<char>, Option<Seq<char>>>), Seq<char>>((parser.fuzz as int, m)),
            }),
            apply_from(acts, 0, orig_files.view(), Map::empty()) == apply_from(acts, k as int, orig_files.view(), result.view()),
        decreases parser.actions.len() - k,
    {
        let path = &parser.actions[k].0;
        let ps = string_of(path);
        match &parser.actions[k].1 {
            PatchAction::Delete => {
                result.insert(ps, None);
            },
            PatchAction::Add { new_file } => {
                let body = string_of(new_file);
                result.insert(ps, Some(body));
            },
            PatchAction::Update { chunks, move_path } => {
                let text_now = match orig_files.get(ps.as_str()) {
                    Some(t) => chars_of(t.as_str()),
                    None => Vec::new(),
                };
                assert(acts[k as int].1 is Update);
                assert(text_now@ == orig_files.view()[path@]);
                let ghost mv = match move_path { Some(m) => Some(m@), None => None };
                assert(acts[k as int].1 == ActionSpec::Update(chunks_view(chunks@), mv));
                let new_text = match get_updated_file(&text_now, chunks, path) {
                    Ok(t) => string_of(&t),
                    Err(e) => {
                        assert(apply_from(acts, k as int, orig_files.view(), result.view()) == Err::<Map<Seq<char>, Option<Seq<char>>>, Seq<char>>(e.0@));
                        return Err(e);
                    },
                };
                match move_path {
                    Some(target) => {
                        result.insert(ps, None);
                        result.insert(string_of(target), Some(new_text));
                    },
                    None => {
                        result.insert(ps, Some(new_text));
                    },
                }
            },
        }
        k += 1;
    }
    Ok((string_of(&chars_of("Done!")), parser.fuzz, result))
}


/// `p` is what `l` names after an `*** Update File: ` or `*** Delete File: `
/// prefix.
pub open spec fn names_needed_file(l: Seq<char>, p: Seq<char>) -> bool {
    (starts(l, "*** Update File: "@) && p == l.subrange("*** Update File: "@.len() as int, l.len() as int))
        || (starts(l, "*** Delete File: "@) && p == l.subrange("*** Delete File: "@.len() as int, l.len() as int))
}

/// The paths whose earlier contents a patch needs: the targets of its
/// `Update` and `Delete` headers. `Add` targets are not among them.
/// The lines are those `process_patch` reads, so a path listed here is
/// looked up under the same name.
pub open spec fn files_needed_spec(text: Seq<char>) -> Set<Seq<char>> {
    Set::new(|p: Seq<char>| exists|i: int| 0 <= i < patch_lines(text).len() && names_needed_file(#[trigger] patch_lines(text)[i], p))
}

/// `v` holds a string equal to `q`.
pub open spec fn contains_path(v: Seq<String>, q: Seq<char>) -> bool {
    exists|i: int| 0 <= i < v.len() && #[trigger] v[i]@ == q
}

fn add_unique(out: &mut Vec<String>, p: Vec<char>)
    requires
        forall|i: int, j: int| 0 <= i < j < old(out)@.len() ==> old(out)@[i]@ != old(out)@[j]@,
    ensures
        forall|i: int, j: int| 0 <= i < j < final(out)@.len() ==> final(out)@[i]@ != final(out)@[j]@,
        forall|q: Seq<char>| #[trigger] contains_path(final(out)@, q)
            <==> (contains_path(old(out)@, q) || q == p@),
{
    let mut i: usize = 0;
    while i < out.len()
        invariant
            i <= out.len(),
            out@ == old(out)@,
            forall|a: int, b: int| 0 <= a < b < old(out)@.len() ==> old(out)@[a]@ != old(out)@[b]@,
            forall|k: int| 0 <= k < i ==> out@[k]@ != p@,
        decreases out.len() - i,
    {
        let c = chars_of(out[i].as_str());
        if eq_chars(&c, &p) {
            assert forall|q: Seq<char>| #[trigger] contains_path(out@, q)
                <==> (contains_path(old(out)@, q) || q == p@) by {
                if q == p@ {
                    assert(out@[i as int]@ == q);
                }
            }
            return;
        }
        i += 1;
    }
    let ghost n = out@.len();
    out.push(string_of(&p));
    assert forall|q: Seq<char>| #[trigger] contains_path(out@, q)
        <==> (contains_path(old(out)@, q) || q == p@) by {
        if q == p@ {
            assert(out@[n as int]@ == q);
        }
        if contains_path(old(out)@, q) {
            let k = choose|k: int| 0 <= k < old(out)@.len() && #[trigger] old(out)@[k]@ == q;
            assert(out@[k]@ == q);
        }
        if contains_path(out@, q) {
            let k = choose|k: int| 0 <= k < out@.len() && #[trigger] out@[k]@ == q;
            if k < n {
                assert(old(out)@[k]@ == q);
            }
        }
    }
}

/// The paths named by the `*** Update File:` and `*** Delete File:` headers
/// of `text`, each once, so that callers can read them before applying it.
pub fn identify_files_needed(text: &str) -> (r: Vec<String>)
    ensures
        forall|i: int, j: int| 0 <= i < j < r@.len() ==> r@[i]@ != r@[j]@,
        forall|p: Seq<char>| #[trigger] contains_path(r@, p) <==> files_needed_spec(text@).contains(p),
{
    let chars = chars_of(text);
    let trimmed = trim_line(&chars);
    let lines = split_chars(&trimmed, '\n');
    let ghost lv = patch_lines(text@);
    let mut out: Vec<String> = Vec::new();
    let mut k: usize = 0;
    while k < lines.len()
        invariant
            k <= lines.len(),
            lv == lines_view(lines@),
            forall|i: int, j: int| 0 <= i < j < out@.len() ==> out@[i]@ != out@[j]@,
            forall|p: Seq<char>| #[trigger] contains_path(out@, p)
                <==> (exists|i: int| 0 <= i < k && names_needed_file(#[trigger] lv[i], p)),
        decreases lines.len() - k,
    {
        let l = &lines[k];
        let ghost before = out@;
        let mut upd: Option<Vec<char>> = None;
        let mut del: Option<Vec<char>> = None;
        if starts_lit(l, "*** Update File: ") {
            let n = chars_of("*** Update File: ").len();
            upd = Some(drop_chars(l, n));
        }
        if starts_lit(l, "*** Delete File: ") {
            let n = chars_of("*** Delete File: ").len();
            del = Some(drop_chars(l, n));
        }
        match upd {
            Some(p) => { add_unique(&mut out, p); },
            None => {},
        }
        match del {
            Some(p) => { add_unique(&mut out, p); },
            None => {},
        }
        assert forall|p: Seq<char>| #[trigger] contains_path(out@, p)
            <==> (exists|i: int| 0 <= i < k + 1 && names_needed_file(#[trigger] lv[i], p)) by {
            if names_needed_file(lv[k as int], p) {
                assert(lv[k as int] == l@);
            }
            if exists|i: int| 0 <= i < k && names_needed_file(#[trigger] lv[i], p) {
            }
            if exists|i: int| 0 <= i < k + 1 && names_needed_file(#[trigger] lv[i], p) {
                let i = choose|i: int| 0 <= i < k + 1 && names_needed_file(#[trigger] lv[i], p);
                if i < k {
                    assert(exists|i: int| 0 <= i < k && names_needed_file(#[trigger] lv[i], p));
                }
            }
        }
        k += 1;
    }
    assert forall|p: Seq<char>| #[trigger] contains_path(out@, p)
        <==> files_needed_spec(text@).contains(p) by {
    }
    out
}


/// The lines of a patch that adds the file `path` with the lines `ls`.
pub open spec fn add_patch_lines(path: Seq<char>, ls: Seq<Seq<char>>) -> Seq<Seq<char>> {
    seq!["*** Begin Patch"@, "*** Add File: "@ + path] + Seq::new(ls.len(), |i: int| "+"@ + ls[i]) + seq!["*** End Patch"@]
}

/// The text of a patch that adds the file `path` with the lines `ls`.
pub open spec fn add_patch_text(path: Seq<char>, ls: Seq<Seq<char>>) -> Seq<char> {
    join_spec(add_patch_lines(path, ls), '\n')
}

/// `s` holds no line break.
pub open spec fn one_line(s: Seq<char>) -> bool {
    forall|j: int| 0 <= j < s.len() ==> s[j] != '\n'
}

proof fn lemma_add_body(lines: Seq<Seq<char>>, ls: Seq<Seq<char>>, k: int)
    requires
        lines.len() == ls.len() + 3,
        0 <= k <= ls.len(),
        forall|i: int| 0 <= i < ls.len() ==> lines[i + 2] == "+"@ + ls[i],
        lines[ls.len() as int + 2] == "*** End Patch"@,
    ensures
        add_from(lines, k + 2, ls.subrange(0, k)) == Ok::<(Seq<char>, int), Seq<char>>((join_spec(ls, '\n'), ls.len() as int + 2)),
    decreases ls.len() - k,
{
    reveal_strlit("+");
    reveal_strlit("*** End Patch");
    reveal_strlit("*** Update File:");
    reveal_strlit("*** Delete File:");
    reveal_strlit("*** Add File:");
    if k == ls.len() {
        assert(ls.subrange(0, k) =~= ls);
        assert(starts(lines[k + 2], "*** End Patch"@)) by {
            assert(lines[k + 2].subrange(0, "*** End Patch"@.len() as int) =~= "*** End Patch"@);
        }
    } else {
        let l = lines[k + 2];
        assert(l == "+"@ + ls[k]);
        assert(l[0] == '+');
        assert(!starts(l, "*** End Patch"@)) by { if starts(l, "*** End Patch"@) { assert(l.subrange(0, 13)[0] == l[0]); } }
        assert(!starts(l, "*** Update File:"@)) by { if starts(l, "*** Update File:"@) { assert(l.subrange(0, 16)[0] == l[0]); } }
        assert(!starts(l, "*** Delete File:"@)) by { if starts(l, "*** Delete File:"@) { assert(l.subrange(0, 16)[0] == l[0]); } }
        assert(!starts(l, "*** Add File:"@)) by { if starts(l, "*** Add File:"@) { assert(l.subrange(0, 13)[0] == l[0]); } }
        assert(starts(l, "+"@)) by { assert(l.subrange(0, 1) =~= "+"@); }
        assert(l.drop_first() =~= ls[k]);
        assert(ls.subrange(0, k).push(ls[k]) =~= ls.subrange(0, k + 1));
        lemma_add_body(lines, ls, k + 1);
    }
}

/// Round trip for additions: the patch that adds `path` with the lines `ls`
/// yields exactly that file, at no fuzz, whatever files are given.
pub proof fn lemma_add_patch_round_trip(path: Seq<char>, ls: Seq<Seq<char>>, files: Map<Seq<char>, Seq<char>>)
    requires
        one_line(path),
        forall|i: int| 0 <= i < ls.len() ==> one_line(#[trigger] ls[i]),
    ensures
        process_patch_spec(add_patch_text(path, ls), files)
            == Ok::<(int, Map<Seq<char>, Option<Seq<char>>>), Seq<char>>((0, Map::empty().insert(path, Some(join_spec(ls, '\n'))))),
{
    reveal_strlit("*** Begin Patch");
    reveal_strlit("*** Add File: ");
    reveal_strlit("*** End Patch");
    reveal_strlit("*** Update File: ");
    reveal_strlit("*** Delete File: ");
    reveal_strlit("+");
    let lines = add_patch_lines(path, ls);
    let text = add_patch_text(path, ls);
    assert forall|i: int, j: int| 0 <= i < lines.len() && 0 <= j < lines[i].len() implies lines[i][j] != '\n' by {
        if i == 1 {
            if j >= 14 { assert(lines[1][j] == path[j - 14]); }
        } else if 2 <= i < ls.len() + 2 {
            assert(lines[i] == "+"@ + ls[i - 2]);
            if j >= 1 { assert(lines[i][j] == ls[i - 2][j - 1]); }
        }
    }
    lemma_split_join(lines, '\n');
    lemma_join_ends(lines, '\n');
    assert(lines[0] == "*** Begin Patch"@);
    assert(lines.last() == "*** End Patch"@);
    assert(text[0] == lines[0][0]);
    assert(text.last() == lines.last().last());
    lemma_trim_id(text);
    assert(patch_lines(text) == lines);
    assert(starts(text, "*** Begin Patch"@));
    let h = lines[1];
    assert(h == "*** Add File: "@ + path);
    assert(!starts(h, "*** End Patch"@)) by { if starts(h, "*** End Patch"@) { assert(h.subrange(0, 13)[4] == h[4]); } }
    assert(!starts(h, "*** Update File: "@)) by {
        if starts(h, "*** Update File: "@) { assert(h.subrange(0, 17)[4] == h[4]); }
    }
    assert(!starts(h, "*** Delete File: "@)) by {
        if starts(h, "*** Delete File: "@) { assert(h.subrange(0, 17)[4] == h[4]); }
    }
    assert(starts(h, "*** Add File: "@)) by { assert(h.subrange(0, 14) =~= "*** Add File: "@); }
    assert(h.subrange(14, h.len() as int) =~= path);
    assert(!has_path(Seq::<(Seq<char>, ActionSpec)>::empty(), path));
    lemma_add_body(lines, ls, 0);
    assert(ls.subrange(0, 0) =~= Seq::<Seq<char>>::empty());
    let acts = seq![(path, ActionSpec::Add(join_spec(ls, '\n')))];
    assert(Seq::<(Seq<char>, ActionSpec)>::empty().push((path, ActionSpec::Add(join_spec(ls, '\n')))) =~= acts);
    let end = lines[ls.len() as int + 2];
    assert(starts(end, "*** End Patch"@)) by { assert(end.subrange(0, 13) =~= "*** End Patch"@); }
    assert(parse_from(lines, ls.len() as int + 2, files, acts, 0) == Ok::<(Seq<(Seq<char>, ActionSpec)>, int), Seq<char>>((acts, 0)));
    assert(parse_from(lines, 1, files, Seq::empty(), 0) == Ok::<(Seq<(Seq<char>, ActionSpec)>, int), Seq<char>>((acts, 0)));
    assert(apply_from(acts, 1, files, Map::empty().insert(path, Some(join_spec(ls, '\n')))) == Ok::<Map<Seq<char>, Option<Seq<char>>>, Seq<char>>(Map::empty().insert(path, Some(join_spec(ls, '\n')))));
}


/// The lines of a patch that rewrites `path` from the lines `old` to the
/// lines `new` in one section: every old line deleted, every new line
/// inserted.
pub open spec fn update_patch_lines(path: Seq<char>, old: Seq<Seq<char>>, new: Seq<Seq<char>>) -> Seq<Seq<char>> {
    seq!["*** Begin Patch"@, "*** Update File: "@ + path, "@@"@] + Seq::new(old.len(), |i: int| "-"@ + old[i])
        + Seq::new(new.len(), |i: int| "+"@ + new[i]) + seq!["*** End Patch"@]
}

/// The text of that patch.
pub open spec fn update_patch_text(path: Seq<char>, old: Seq<Seq<char>>, new: Seq<Seq<char>>) -> Seq<char> {
    join_spec(update_patch_lines(path, old, new), '\n')
}

proof fn lemma_not_marker(l: Seq<char>, c: char)
    requires
        l.len() > 0,
        l[0] == c,
        c != '*',
        c != '@',
    ensures
        !is_section_end(l),
        !starts(l, "***"@),
        !starts(l, "*** End Patch"@),
{
    reveal_strlit("@@");
    reveal_strlit("*** End Patch");
    reveal_strlit("*** Update File:");
    reveal_strlit("*** Delete File:");
    reveal_strlit("*** Add File:");
    reveal_strlit("*** End of File");
    reveal_strlit("***");
    if starts(l, "@@"@) { assert(l.subrange(0, 2)[0] == l[0]); }
    if starts(l, "***"@) { assert(l.subrange(0, 3)[0] == l[0]); }
    if starts(l, "*** End Patch"@) { assert(l.subrange(0, 13)[0] == l[0]); }
    if starts(l, "*** Update File:"@) { assert(l.subrange(0, 16)[0] == l[0]); }
    if starts(l, "*** Delete File:"@) { assert(l.subrange(0, 16)[0] == l[0]); }
    if starts(l, "*** Add File:"@) { assert(l.subrange(0, 13)[0] == l[0]); }
    if starts(l, "*** End of File"@) { assert(l.subrange(0, 15)[0] == l[0]); }
    if l == "***"@ { assert(l[0] == '*'); }
}

proof fn lemma_plus_lines(lines: Seq<Seq<char>>, old: Seq<Seq<char>>, new: Seq<Seq<char>>, j: int)
    requires
        old.len() > 0,
        lines == update_patch_lines(lines[1].subrange(17, lines[1].len() as int), old, new),
        lines[1].len() >= 17,
        0 <= j <= new.len(),
    ensures
        section_from(lines, 3 + old.len() + j, old, old, new.subrange(0, j), Seq::empty(), if j > 0 { 1 } else { 2 })
            == Ok::<(Seq<Seq<char>>, Seq<ChunkSpec>, int), Seq<char>>((old, seq![ChunkSpec { orig_index: 0, del: old, ins: new }], 3 + old.len() as int + new.len() as int)),
    decreases new.len() - j,
{
    reveal_strlit("*** End Patch");
    reveal_strlit("+");
    let i = 3 + old.len() + j;
    if j == new.len() {
        let l = lines[i];
        assert(l == "*** End Patch"@);
        assert(starts(l, "*** End Patch"@)) by { assert(l.subrange(0, 13) =~= "*** End Patch"@); }
        assert(new.subrange(0, j) =~= new);
        assert(flush_spec(old.len() as int, old, new, Seq::empty()) =~= seq![ChunkSpec { orig_index: 0, del: old, ins: new }]);
    } else {
        let l = lines[i];
        assert(l == "+"@ + new[j]);
        lemma_not_marker(l, '+');
        assert(l.drop_first() =~= new[j]);
        assert(new.subrange(0, j).push(new[j]) =~= new.subrange(0, j + 1));
        lemma_plus_lines(lines, old, new, j + 1);
    }
}

proof fn lemma_minus_lines(lines: Seq<Seq<char>>, old: Seq<Seq<char>>, new: Seq<Seq<char>>, k: int)
    requires
        old.len() > 0,
        lines == update_patch_lines(lines[1].subrange(17, lines[1].len() as int), old, new),
        lines[1].len() >= 17,
        0 <= k <= old.len(),
    ensures
        section_from(lines, 3 + k, old.subrange(0, k), old.subrange(0, k), Seq::empty(), Seq::empty(), if k > 0 { 2 } else { 0 })
            == Ok::<(Seq<Seq<char>>, Seq<ChunkSpec>, int), Seq<char>>((old, seq![ChunkSpec { orig_index: 0, del: old, ins: new }], 3 + old.len() as int + new.len() as int)),
    decreases old.len() - k,
{
    reveal_strlit("-");
    if k == old.len() {
        assert(old.subrange(0, k) =~= old);
        assert(new.subrange(0, 0) =~= Seq::<Seq<char>>::empty());
        lemma_plus_lines(lines, old, new, 0);
    } else {
        let l = lines[3 + k];
        assert(l == "-"@ + old[k]);
        lemma_not_marker(l, '-');
        assert(l.drop_first() =~= old[k]);
        assert(old.subrange(0, k).push(old[k]) =~= old.subrange(0, k + 1));
        lemma_minus_lines(lines, old, new, k + 1);
    }
}

/// Round trip for updates: the patch that rewrites `path` from its current
/// lines to the lines `new` yields exactly those lines, at no fuzz.
pub proof fn lemma_update_patch_round_trip(path: Seq<char>, new: Seq<Seq<char>>, files: Map<Seq<char>, Seq<char>>)
    requires
        one_line(path),
        forall|i: int| 0 <= i < new.len() ==> one_line(#[trigger] new[i]),
        files.contains_key(path),
    ensures
        process_patch_spec(update_patch_text(path, split_spec(files[path], '\n'), new), files)
            == Ok::<(int, Map<Seq<char>, Option<Seq<char>>>), Seq<char>>((0, Map::empty().insert(path, Some(join_spec(new, '\n'))))),
{
    reveal_strlit("*** Begin Patch");
    reveal_strlit("*** Update File: ");
    reveal_strlit("*** End Patch");
    reveal_strlit("*** End of File");
    reveal_strlit("*** Move to: ");
    reveal_strlit("*** Update File:");
    reveal_strlit("*** Delete File:");
    reveal_strlit("*** Add File:");
    reveal_strlit("@@");
    reveal_strlit("@@ ");
    reveal_strlit("-");
    reveal_strlit("+");
    let old = split_spec(files[path], '\n');
    lemma_split_nonempty(files[path], '\n');
    lemma_split_no_sep(files[path], '\n');
    let lines = update_patch_lines(path, old, new);
    let text = update_patch_text(path, old, new);
    let n = old.len() as int;
    let m = new.len() as int;
    assert forall|i: int, j: int| 0 <= i < lines.len() && 0 <= j < lines[i].len() implies lines[i][j] != '\n' by {
        if i == 1 {
            if j >= 17 { assert(lines[1][j] == path[j - 17]); }
        } else if 3 <= i < 3 + n {
            assert(lines[i] == "-"@ + old[i - 3]);
            if j >= 1 { assert(lines[i][j] == old[i - 3][j - 1]); }
        } else if 3 + n <= i < 3 + n + m {
            assert(lines[i] == "+"@ + new[i - 3 - n]);
            if j >= 1 { assert(lines[i][j] == new[i - 3 - n][j - 1]); }
        }
    }
    lemma_split_join(lines, '\n');
    lemma_join_ends(lines, '\n');
    assert(text[0] == lines[0][0]);
    assert(text.last() == lines.last().last());
    lemma_trim_id(text);
    assert(patch_lines(text) == lines);
    assert(starts(text, "*** Begin Patch"@));
    let h = lines[1];
    assert(h.subrange(17, h.len() as int) =~= path);
    assert(!starts(h, "*** End Patch"@)) by { if starts(h, "*** End Patch"@) { assert(h.subrange(0, 13)[4] == h[4]); } }
    assert(starts(h, "*** Update File: "@)) by { assert(h.subrange(0, 17) =~= "*** Update File: "@); }
    assert(!has_path(Seq::<(Seq<char>, ActionSpec)>::empty(), path));
    let at = lines[2];
    assert(at == "@@"@);
    assert(!starts(at, "*** Move to: "@));
    assert(!is_update_done(lines, 2)) by {
        if starts(at, "*** End Patch"@) { assert(at.subrange(0, 13).len() == 13); }
        if starts(at, "*** Update File:"@) { assert(at.len() >= 16); }
        if starts(at, "*** Delete File:"@) { assert(at.len() >= 16); }
        if starts(at, "*** Add File:"@) { assert(at.len() >= 13); }
        if starts(at, "*** End of File"@) { assert(at.len() >= 15); }
    }
    assert(!starts(at, "@@ "@));
    assert(old.subrange(0, 0) =~= Seq::<Seq<char>>::empty());
    lemma_minus_lines(lines, old, new, 0);
    let chunk = ChunkSpec { orig_index: 0, del: old, ins: new };
    let end = 3 + n + m;
    assert(lines[end] == "*** End Patch"@);
    assert(lines[end] != "*** End of File"@) by { assert(lines[end][8] != "*** End of File"@[8]); }
    let sec = SectionSpec { context: old, chunks: seq![chunk], end, eof: false };
    assert(section_spec(lines, 3) == Ok::<SectionSpec, Seq<char>>(sec));
    assert(matches_at(old, old, 0, 0));
    assert(first_match(old, old, 0, 0) == Some(0int));
    assert(find_context_spec(old, old, 0, false) == Some((0int, 0nat)));
    assert(anchor_spec(old, None, 0) == (0int, 0nat));
    assert(rebase(seq![chunk], 0) =~= seq![chunk]);
    assert(Seq::<ChunkSpec>::empty() + seq![chunk] =~= seq![chunk]);
    assert(starts(lines[end], "*** End Patch"@)) by { assert(lines[end].subrange(0, 13) =~= "*** End Patch"@); }
    assert(update_from(lines, end, old, sat_add(0, n), seq![chunk], 0) == Ok::<(Seq<ChunkSpec>, int, int), Seq<char>>((seq![chunk], end, 0)));
    assert(is_update_done(lines, end));
    assert(2 < end <= lines.len());
    assert(update_from(lines, 2, old, 0, Seq::empty(), 0) == Ok::<(Seq<ChunkSpec>, int, int), Seq<char>>((seq![chunk], end, 0)));
    let acts = seq![(path, ActionSpec::Update(seq![chunk], None))];
    assert(Seq::<(Seq<char>, ActionSpec)>::empty().push((path, ActionSpec::Update(seq![chunk], None))) =~= acts);
    assert(parse_from(lines, end, files, acts, 0) == Ok::<(Seq<(Seq<char>, ActionSpec)>, int), Seq<char>>((acts, 0)));
    assert(parse_from(lines, 1, files, Seq::empty(), 0) == Ok::<(Seq<(Seq<char>, ActionSpec)>, int), Seq<char>>((acts, 0)));
    assert(old.subrange(0, 0) + new =~= new);
    assert(old.subrange(n, n) =~= Seq::<Seq<char>>::empty());
    assert(Seq::<Seq<char>>::empty() + old.subrange(0, 0) + new == new);
    assert(rebuild_from(old, seq![chunk], 1, n, new, path) == Ok::<Seq<Seq<char>>, Seq<char>>(new + old.subrange(n, n)));
    assert(new + old.subrange(n, n) =~= new);
    assert(rebuild_from(old, seq![chunk], 0, 0, Seq::empty(), path) == Ok::<Seq<Seq<char>>, Seq<char>>(new));
    assert(updated_file_spec(files[path], seq![chunk], path) == Ok::<Seq<char>, Seq<char>>(join_spec(new, '\n')));
    let result = Map::<Seq<char>, Option<Seq<char>>>::empty().insert(path, Some(join_spec(new, '\n')));
    assert(apply_from(acts, 1, files, result) == Ok::<Map<Seq<char>, Option<Seq<char>>>, Seq<char>>(result));
    assert(apply_from(acts, 0, files, Map::empty()) == Ok::<Map<Seq<char>, Option<Seq<char>>>, Seq<char>>(result));
    assert(lines.last() == "*** End Patch"@);
}

/// Applying an update and then the symmetric update gives back the
/// text it started from.
pub proof fn lemma_update_then_revert(path: Seq<char>, new: Seq<Seq<char>>, files: Map<Seq<char>, Seq<char>>)
    requires
        one_line(path),
        forall|i: int| 0 <= i < new.len() ==> one_line(#[trigger] new[i]),
        files.contains_key(path),
    ensures
        ({
            let edited = join_spec(new, '\n');
            let back = update_patch_text(path, split_spec(edited, '\n'), split_spec(files[path], '\n'));
            process_patch_spec(back, files.insert(path, edited))
                == Ok::<(int, Map<Seq<char>, Option<Seq<char>>>), Seq<char>>((0, Map::empty().insert(path, Some(files[path]))))
        }),
{
    let edited = join_spec(new, '\n');
    let orig_lines = split_spec(files[path], '\n');
    lemma_split_no_sep(files[path], '\n');
    assert forall|i: int| 0 <= i < orig_lines.len() implies one_line(#[trigger] orig_lines[i]) by {}
    lemma_update_patch_round_trip(path, orig_lines, files.insert(path, edited));
    lemma_join_split(files[path], '\n');
    assert(files.insert(path, edited)[path] == edited);
}


/// The text of a patch that deletes the file `path`.
pub open spec fn delete_patch_text(path: Seq<char>) -> Seq<char> {
    join_spec(seq!["*** Begin Patch"@, "*** Delete File: "@ + path, "*** End Patch"@], '\n')
}

/// Round trip for deletions: the patch that deletes a file that exists
/// yields exactly its deletion, at no fuzz.
pub proof fn lemma_delete_patch_round_trip(path: Seq<char>, files: Map<Seq<char>, Seq<char>>)
    requires
        one_line(path),
        files.contains_key(path),
    ensures
        process_patch_spec(delete_patch_text(path), files)
            == Ok::<(int, Map<Seq<char>, Option<Seq<char>>>), Seq<char>>((0, Map::empty().insert(path, None))),
{
    reveal_strlit("*** Begin Patch");
    reveal_strlit("*** Delete File: ");
    reveal_strlit("*** Update File: ");
    reveal_strlit("*** End Patch");
    let lines = seq!["*** Begin Patch"@, "*** Delete File: "@ + path, "*** End Patch"@];
    let text = delete_patch_text(path);
    assert forall|i: int, j: int| 0 <= i < lines.len() && 0 <= j < lines[i].len() implies lines[i][j] != '\n' by {
        if i == 1 && j >= 17 {
            assert(lines[1][j] == path[j - 17]);
        }
    }
    lemma_split_join(lines, '\n');
    lemma_join_ends(lines, '\n');
    assert(text[0] == lines[0][0]);
    assert(text.last() == lines.last().last());
    lemma_trim_id(text);
    assert(patch_lines(text) == lines);
    assert(starts(text, "*** Begin Patch"@));
    let h = lines[1];
    assert(!starts(h, "*** End Patch"@)) by { if starts(h, "*** End Patch"@) { assert(h.subrange(0, 13)[4] == h[4]); } }
    assert(!starts(h, "*** Update File: "@)) by { if starts(h, "*** Update File: "@) { assert(h.subrange(0, 17)[4] == h[4]); } }
    assert(starts(h, "*** Delete File: "@)) by { assert(h.subrange(0, 17) =~= "*** Delete File: "@); }
    assert(h.subrange(17, h.len() as int) =~= path);
    assert(!has_path(Seq::<(Seq<char>, ActionSpec)>::empty(), path));
    let acts = seq![(path, ActionSpec::Delete)];
    assert(Seq::<(Seq<char>, ActionSpec)>::empty().push((path, ActionSpec::Delete)) =~= acts);
    assert(starts(lines[2], "*** End Patch"@)) by { assert(lines[2].subrange(0, 13) =~= "*** End Patch"@); }
    assert(parse_from(lines, 2, files, acts, 0) == Ok::<(Seq<(Seq<char>, ActionSpec)>, int), Seq<char>>((acts, 0)));
    assert(parse_from(lines, 1, files, Seq::empty(), 0) == Ok::<(Seq<(Seq<char>, ActionSpec)>, int), Seq<char>>((acts, 0)));
    let result = Map::<Seq<char>, Option<Seq<char>>>::empty().insert(path, None);
    assert(apply_from(acts, 1, files, result) == Ok::<Map<Seq<char>, Option<Seq<char>>>, Seq<char>>(result));
}

} // verus!
