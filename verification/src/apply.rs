//! Shell profile editing: the managed block, its detection in existing profiles, and
//! the profile text that appending or replacing the block produces.
use vstd::prelude::*;
use crate::clean::{cleaned_path, clean_model, export_text, format_clean_export};
use crate::model::{ApplyAction, ApplyPlan, PathVariable, PlatformMode, ShellKind};
use crate::path_env::{case_sensitive_of, resolves_to, separator_of};
use crate::policy::{PathPolicy, drop_keys};
use crate::text::{
    append, chars_of, decimal, decimal_text, decimal_text_u64, join_with, owned, replace_char,
    replace_text, split_on, split_text, string_of, substring, views,
};

verus! {

/// The line that opens the managed block.
pub const START_MARKER: &'static str = "# >>> patholog PATH >>>";

/// The line that closes the managed block.
pub const END_MARKER: &'static str = "# <<< patholog PATH <<<";

/// The managed block around a snippet.
pub open spec fn managed_block_text(snippet: Seq<char>) -> Seq<char> {
    START_MARKER@ + "\n"@ + snippet + "\n"@ + END_MARKER@
}

/// The managed block around a snippet.
pub fn managed_block(snippet: &str) -> (r: String)
    ensures
        r@ == managed_block_text(snippet@),
{
    let mut r = owned(START_MARKER);
    append(&mut r, "\n");
    append(&mut r, snippet);
    append(&mut r, "\n");
    append(&mut r, END_MARKER);
    r
}

/// A line without one trailing carriage return.
pub open spec fn strip_cr(line: Seq<char>) -> Seq<char> {
    if line.len() > 0 && line.last() == '\r' {
        line.drop_last()
    } else {
        line
    }
}

/// The number of characters the lines take with their newlines.
pub open spec fn lines_len(lines: Seq<Seq<char>>) -> int
    decreases lines.len(),
{
    if lines.len() == 0 {
        0
    } else {
        lines_len(lines.drop_last()) + lines.last().len() + 1
    }
}

/// The character offsets of the lines equal to `marker` (ignoring a trailing carriage
/// return), in order.
pub open spec fn marker_lines(lines: Seq<Seq<char>>, marker: Seq<char>) -> Seq<int>
    decreases lines.len(),
{
    if lines.len() == 0 {
        Seq::<int>::empty()
    } else {
        let acc = marker_lines(lines.drop_last(), marker);
        if strip_cr(lines.last()) == marker {
            acc.push(lines_len(lines.drop_last()))
        } else {
            acc
        }
    }
}

/// The character offsets of the lines of `content` that are exactly `marker`.
pub open spec fn marker_positions(content: Seq<char>, marker: Seq<char>) -> Seq<int> {
    marker_lines(split_on(content, '\n'), marker)
}

/// The position of the first newline at or after `from`, or the end of `content`.
pub open spec fn next_newline(content: Seq<char>, from: int) -> int
    decreases content.len() - from,
{
    if from >= content.len() {
        content.len() as int
    } else if content[from] == '\n' {
        from
    } else {
        next_newline(content, from + 1)
    }
}

/// The error for an end marker before the start marker.
pub open spec fn malformed_error() -> Seq<char> {
    "apply target profile contains a malformed patholog managed block"@
}

/// The error for missing, duplicate or unbalanced markers.
pub open spec fn duplicate_error() -> Seq<char> {
    "apply target profile contains duplicate or malformed patholog managed blocks"@
}

/// The managed block of a profile in characters: none without markers, the text from the
/// start marker to the end of the end marker's line (without its newline) for one start
/// marker before one end marker, else an error.
pub open spec fn block_span(content: Seq<char>) -> Result<Option<(int, int)>, Seq<char>> {
    let starts = marker_positions(content, START_MARKER@);
    let ends = marker_positions(content, END_MARKER@);
    if starts.len() == 0 && ends.len() == 0 {
        Ok(None)
    } else if starts.len() == 1 && ends.len() == 1 {
        if starts[0] < ends[0] {
            Ok(Some((starts[0], next_newline(content, ends[0] + END_MARKER@.len()))))
        } else {
            Err(malformed_error())
        }
    } else {
        Err(duplicate_error())
    }
}

/// The character offsets of the lines that are exactly `marker`.
pub fn marker_offsets(content: &str, marker: &str) -> (r: Vec<usize>)
    ensures
        r@.map_values(|o: usize| o as int) == marker_positions(content@, marker@),
{
    let all = chars_of(content);
    let lines = split_text(content, '\n');
    let mut offsets: Vec<usize> = Vec::new();
    let mut offset: usize = 0;
    let mut i: usize = 0;
    proof {
        crate::text::lemma_split_lines_len(content@, '\n');
        crate::text::lemma_split_nonempty(content@, '\n');
        assert(views(lines@).take(0) == Seq::<Seq<char>>::empty());
    }
    while i < lines.len()
        invariant
            i <= lines.len(),
            all@ == content@,
            views(lines@) == split_on(content@, '\n'),
            lines.len() >= 1,
            lines_len(views(lines@)) == content@.len() + 1,
            i < lines.len() ==> offset == lines_len(views(lines@).take(i as int)),
            offsets@.map_values(|o: usize| o as int) == marker_lines(
                views(lines@).take(i as int),
                marker@,
            ),
        decreases lines.len() - i,
    {
        let ghost t = views(lines@).take(i + 1);
        assert(t.drop_last() == views(lines@).take(i as int));
        assert(t.last() == lines@[i as int]@);
        proof {
            lemma_lines_len_prefix(views(lines@), i + 1);
        }
        let line = chars_of(lines[i].as_str());
        let n = line.len();
        let stripped = if n > 0 && line[n - 1] == '\r' {
            substring(&line, 0, n - 1)
        } else {
            string_of(line.as_slice())
        };
        assert(line@.subrange(0, n - 1) == line@.drop_last());
        if crate::text::same_text(stripped.as_str(), marker) {
            let ghost before = offsets@.map_values(|o: usize| o as int);
            offsets.push(offset);
            assert(offsets@.map_values(|o: usize| o as int) == before.push(offset as int));
        }
        assert(lines_len(t) == lines_len(t.drop_last()) + t.last().len() + 1);
        if i + 1 < lines.len() {
            proof {
                let ls = views(lines@);
                let front = ls.take(ls.len() - 1);
                lemma_lines_len_prefix(front, i + 1);
                assert(front.take(i + 1) == ls.take(i + 1));
                assert(ls.drop_last() == front);
                assert(lines_len(ls) == lines_len(ls.drop_last()) + ls.last().len() + 1);
                assert(lines_len(front) <= content@.len());
                assert(offset + n + 1 == lines_len(t));
                assert(content@.len() == all.len());
            }
            offset = offset + n + 1;
        }
        i += 1;
    }
    assert(views(lines@).take(lines.len() as int) == views(lines@));
    offsets
}

/// The lines of a prefix take no more characters than all of them.
proof fn lemma_lines_len_prefix(lines: Seq<Seq<char>>, n: int)
    requires
        0 <= n <= lines.len(),
    ensures
        lines_len(lines.take(n)) <= lines_len(lines),
    decreases lines.len() - n,
{
    if n < lines.len() {
        lemma_lines_len_prefix(lines, n + 1);
        assert(lines.take(n + 1).drop_last() == lines.take(n));
    } else {
        assert(lines.take(n) == lines);
    }
}

/// The position of the first newline at or after `from`, or the end.
fn find_newline(chars: &Vec<char>, from: usize) -> (r: usize)
    requires
        from <= chars.len(),
    ensures
        r == next_newline(chars@, from as int),
        from <= r <= chars.len(),
{
    let mut i = from;
    while i < chars.len() && chars[i] != '\n'
        invariant
            from <= i <= chars.len(),
            next_newline(chars@, from as int) == next_newline(chars@, i as int),
        decreases chars.len() - i,
    {
        i += 1;
    }
    i
}

/// The byte offset, in the UTF-8 text of `s`, of the character at position `i`: the
/// length of the encoding of the characters before it.
pub open spec fn byte_offset(s: Seq<char>, i: int) -> int {
    vstd::utf8::encode_utf8(s.take(i)).len() as int
}

/// The encoding of a concatenation is the concatenation of the encodings.
proof fn lemma_encode_concat(a: Seq<char>, b: Seq<char>)
    ensures
        vstd::utf8::encode_utf8(a + b) == vstd::utf8::encode_utf8(a) + vstd::utf8::encode_utf8(b),
    decreases a.len(),
{
    if a.len() == 0 {
        assert(a + b =~= b);
        assert(vstd::utf8::encode_utf8(a) == Seq::<u8>::empty());
        assert(vstd::utf8::encode_utf8(a) + vstd::utf8::encode_utf8(b) =~= vstd::utf8::encode_utf8(
            b,
        ));
    } else {
        lemma_encode_concat(a.drop_first(), b);
        assert((a + b).drop_first() =~= a.drop_first() + b);
        assert((a + b)[0] == a[0]);
        assert(vstd::utf8::encode_utf8(a + b) =~= vstd::utf8::encode_utf8(a)
            + vstd::utf8::encode_utf8(b));
    }
}

/// One character takes `utf8_width` bytes.
proof fn lemma_encode_one(c: char)
    ensures
        vstd::utf8::encode_utf8(seq![c]).len() == crate::fuzz_args::utf8_width(c),
{
    assert(seq![c].drop_first() =~= Seq::<char>::empty());
    assert(vstd::utf8::encode_utf8(Seq::<char>::empty()) == Seq::<u8>::empty());
    assert(seq![c][0] == c);
    let v = c as u32;
    assert(v <= 0xD7FF || (0xE000 <= v && v <= 0x10FFFF));
}

/// Each further character adds its width to the byte offset, and an offset is within
/// the whole encoding.
proof fn lemma_byte_offset_step(s: Seq<char>, i: int)
    requires
        0 <= i < s.len(),
    ensures
        byte_offset(s, i + 1) == byte_offset(s, i) + crate::fuzz_args::utf8_width(s[i]),
        byte_offset(s, i + 1) <= vstd::utf8::encode_utf8(s).len(),
{
    assert(s.take(i + 1) =~= s.take(i) + seq![s[i]]);
    lemma_encode_concat(s.take(i), seq![s[i]]);
    lemma_encode_one(s[i]);
    assert(s =~= s.take(i + 1) + s.skip(i + 1));
    lemma_encode_concat(s.take(i + 1), s.skip(i + 1));
}

/// The byte offset of the character at position `pos` of `chars`, whose UTF-8 encoding
/// takes `total` bytes.
fn byte_offset_of(chars: &Vec<char>, total: usize, pos: usize) -> (r: usize)
    requires
        pos <= chars.len(),
        vstd::utf8::encode_utf8(chars@).len() == total,
    ensures
        r == byte_offset(chars@, pos as int),
{
    let mut acc: usize = 0;
    let mut k: usize = 0;
    assert(chars@.take(0) =~= Seq::<char>::empty());
    assert(vstd::utf8::encode_utf8(Seq::<char>::empty()) == Seq::<u8>::empty());
    while k < pos
        invariant
            k <= pos <= chars.len(),
            vstd::utf8::encode_utf8(chars@).len() == total,
            acc == byte_offset(chars@, k as int),
        decreases pos - k,
    {
        proof {
            lemma_byte_offset_step(chars@, k as int);
        }
        acc = acc + crate::fuzz_args::char_width(chars[k]);
        k += 1;
    }
    acc
}

/// The managed block of a profile as a range of byte offsets into the text (the range
/// that slices the block out of it), or the error for malformed blocks.
pub fn existing_managed_block_span(content: &str) -> (r: Result<Option<core::ops::Range<usize>>, String>)
    ensures
        match (r, block_span(content@)) {
            (Ok(None), Ok(None)) => true,
            (Ok(Some(range)), Ok(Some((a, b)))) => range.start == byte_offset(content@, a)
                && range.end == byte_offset(content@, b),
            (Err(e), Err(s)) => e@ == s,
            _ => false,
        },
{
    match existing_block_chars(content) {
        Ok(None) => Ok(None),
        Ok(Some((a, b))) => {
            let chars = chars_of(content);
            let total = content.as_bytes().len();
            let start = byte_offset_of(&chars, total, a);
            let end = byte_offset_of(&chars, total, b);
            Ok(Some(start..end))
        },
        Err(e) => Err(e),
    }
}

/// The managed block of a profile as a character range, or the error for malformed blocks.
pub fn existing_block_chars(content: &str) -> (r: Result<Option<(usize, usize)>, String>)
    ensures
        match (r, block_span(content@)) {
            (Ok(None), Ok(None)) => true,
            (Ok(Some((a, b))), Ok(Some((x, y)))) => a == x && b == y && a <= b <= content@.len(),
            (Err(e), Err(s)) => e@ == s,
            _ => false,
        },
{
    let starts = marker_offsets(content, START_MARKER);
    let ends = marker_offsets(content, END_MARKER);
    let ghost ss = starts@.map_values(|o: usize| o as int);
    let ghost es = ends@.map_values(|o: usize| o as int);
    assert(ss.len() == starts.len());
    assert(es.len() == ends.len());
    if starts.len() == 0 && ends.len() == 0 {
        return Ok(None);
    }
    if starts.len() == 1 && ends.len() == 1 {
        assert(ss[0] == starts@[0] as int);
        assert(es[0] == ends@[0] as int);
        if starts[0] < ends[0] {
            let chars = chars_of(content);
            let end_len = chars_of(END_MARKER).len();
            proof {
                lemma_marker_in_bounds(content@, END_MARKER@, 0);
            }
            assert(end_len == END_MARKER@.len());
            assert(chars@.len() == content@.len());
            assert(ends@[0] + end_len <= chars.len());
            let after = ends[0] + end_len;
            let b = find_newline(&chars, after);
            return Ok(Some((starts[0], b)));
        }
        return Err(owned("apply target profile contains a malformed patholog managed block"));
    }
    Err(owned("apply target profile contains duplicate or malformed patholog managed blocks"))
}

/// A marker line lies within the content.
proof fn lemma_marker_in_bounds(content: Seq<char>, marker: Seq<char>, k: int)
    requires
        0 <= k < marker_positions(content, marker).len(),
    ensures
        marker_positions(content, marker)[k] + marker.len() <= content.len(),
{
    crate::text::lemma_split_lines_len(content, '\n');
    lemma_marker_lines_bounds(split_on(content, '\n'), marker, k);
}

/// Each marker line starts where the marker fits before the end of its line.
proof fn lemma_marker_lines_bounds(lines: Seq<Seq<char>>, marker: Seq<char>, k: int)
    requires
        0 <= k < marker_lines(lines, marker).len(),
    ensures
        marker_lines(lines, marker)[k] + marker.len() + 1 <= lines_len(lines),
    decreases lines.len(),
{
    let acc = marker_lines(lines.drop_last(), marker);
    if k < acc.len() {
        lemma_marker_lines_bounds(lines.drop_last(), marker, k);
    } else {
        assert(strip_cr(lines.last()).len() <= lines.last().len());
    }
}

/// The managed block text of a profile, if any.
pub fn existing_managed_block(content: &str) -> (r: Result<Option<String>, String>)
    ensures
        match (r, block_span(content@)) {
            (Ok(None), Ok(None)) => true,
            (Ok(Some(b)), Ok(Some((x, y)))) => b@ == content@.subrange(x, y),
            (Err(e), Err(s)) => e@ == s,
            _ => false,
        },
{
    match existing_block_chars(content) {
        Ok(None) => Ok(None),
        Ok(Some((a, b))) => {
            let chars = chars_of(content);
            Ok(Some(substring(&chars, a, b)))
        },
        Err(e) => Err(e),
    }
}

/// Whether `s` holds a carriage return followed by a newline.
pub open spec fn has_crlf(s: Seq<char>) -> bool {
    exists|i: int| 0 <= i < s.len() - 1 && #[trigger] s[i] == '\r' && s[i + 1] == '\n'
}

/// The line ending a profile uses: CRLF when it holds one, else LF.
pub open spec fn line_ending(s: Seq<char>) -> Seq<char> {
    if has_crlf(s) {
        "\r\n"@
    } else {
        "\n"@
    }
}

/// The line ending a profile uses.
pub fn line_ending_for(content: &str) -> (r: &'static str)
    ensures
        r@ == line_ending(content@),
{
    let chars = chars_of(content);
    let mut i: usize = 0;
    while i + 1 < chars.len()
        invariant
            i == 0 || i < chars.len(),
            chars@ == content@,
            forall|j: int|
                0 <= j < i && j < chars.len() - 1 ==> !(#[trigger] chars@[j] == '\r' && chars@[j + 1]
                    == '\n'),
        decreases chars.len() - i,
    {
        if chars[i] == '\r' && chars[i + 1] == '\n' {
            assert(content@[i + 1] == '\n');
            return "\r\n";
        }
        i += 1;
    }
    assert(!has_crlf(content@)) by {
        if has_crlf(content@) {
            let k = choose|k: int| 0 <= k < content@.len() - 1 && #[trigger] content@[k] == '\r' && content@[k + 1] == '\n';
            assert(k < i);
        }
    }
    "\n"
}

/// The block with its newlines written as the given line ending.
pub open spec fn block_with_ending(block: Seq<char>, ending: Seq<char>) -> Seq<char> {
    if ending == "\n"@ {
        block
    } else {
        replace_char(block, '\n', ending)
    }
}

/// The block with its newlines written as the given line ending.
pub fn planned_block_with_line_ending(block: &str, line_ending: &str) -> (r: String)
    ensures
        r@ == block_with_ending(block@, line_ending@),
{
    if crate::text::same_text(line_ending, "\n") {
        return owned(block);
    }
    replace_text(block, '\n', line_ending)
}

/// The profile with the block appended: a blank line separates it from non-empty
/// existing text, and it ends with a line ending, all in the profile's line ending.
pub open spec fn appended_text(existing: Seq<char>, block: Seq<char>) -> Seq<char> {
    let le = line_ending(existing);
    let b = block_with_ending(block, le);
    let head = if existing.len() == 0 {
        existing
    } else if crate::text::ends_with(existing, le) {
        existing + le
    } else {
        existing + le + le
    };
    head + b + le
}

/// The profile with the block appended.
pub fn appended_profile_content(existing: &str, planned_block: &str) -> (r: String)
    ensures
        r@ == appended_text(existing@, planned_block@),
{
    let le = line_ending_for(existing);
    let block = planned_block_with_line_ending(planned_block, le);
    let mut content = owned(existing);
    if !existing.is_empty() {
        if !crate::text::text_ends_with(existing, le) {
            append(&mut content, le);
        }
        append(&mut content, le);
    }
    append(&mut content, block.as_str());
    append(&mut content, le);
    content
}

/// The error when the profile changed between planning and writing.
pub open spec fn changed_error() -> Seq<char> {
    "apply target profile changed before write; rerun apply"@
}

/// The profile with its managed block replaced: the text before and after the block is
/// kept, the block is written in the profile's line ending, and for CRLF a carriage return
/// is restored before the newline that followed the block.
pub open spec fn replaced_text(existing: Seq<char>, block: Seq<char>) -> Result<Seq<char>, Seq<char>> {
    match block_span(existing) {
        Err(e) => Err(e),
        Ok(None) => Err(changed_error()),
        Ok(Some((a, b))) => {
            let le = line_ending(existing);
            let suffix = existing.skip(b);
            Ok(existing.take(a) + block_with_ending(block, le) + (if le == "\r\n"@ && suffix.len()
                > 0 && suffix[0] == '\n' {
                "\r"@
            } else {
                Seq::<char>::empty()
            }) + suffix)
        },
    }
}

/// The profile with its managed block replaced.
pub fn replaced_profile_content(existing: &str, planned_block: &str) -> (r: Result<String, String>)
    ensures
        match (r, replaced_text(existing@, planned_block@)) {
            (Ok(t), Ok(s)) => t@ == s,
            (Err(e), Err(s)) => e@ == s,
            _ => false,
        },
{
    let (a, b) = match existing_block_chars(existing) {
        Ok(Some(span)) => span,
        Ok(None) => return Err(owned("apply target profile changed before write; rerun apply")),
        Err(e) => return Err(e),
    };
    let le = line_ending_for(existing);
    let block = planned_block_with_line_ending(planned_block, le);
    let chars = chars_of(existing);
    let mut content = substring(&chars, 0, a);
    append(&mut content, block.as_str());
    let suffix = substring(&chars, b, chars.len());
    assert(chars@.subrange(0, a as int) == existing@.take(a as int));
    assert(chars@.subrange(b as int, chars@.len() as int) == existing@.skip(b as int));
    if crate::text::same_text(le, "\r\n") && b < chars.len() && chars[b] == '\n' {
        append(&mut content, "\r");
    }
    append(&mut content, suffix.as_str());
    Ok(content)
}

} // verus!

verus! {

/// The cleaned PATH value and the managed block exporting it for a shell.
pub fn planned_block_for(
    path_value: &str,
    platform_mode: PlatformMode,
    pathext: Option<&str>,
    shell: ShellKind,
    policy: &PathPolicy,
) -> (r: (String, String))
    ensures
        planned_for(path_value@, platform_mode, shell, *policy, r.0@, r.1@),
{
    let cleaned = cleaned_path(path_value, platform_mode, pathext, PathVariable::Path, policy);
    let raw = cleaned.raw_path();
    let block = managed_block(format_clean_export(&cleaned, shell, PathVariable::Path).as_str());
    (raw, block)
}

/// The plan for a profile that does not exist yet: create it.
pub fn plan_for_missing(
    shell: ShellKind,
    profile_path: String,
    planned_block: String,
    cleaned_path: String,
) -> (p: ApplyPlan)
    ensures
        p.shell == shell,
        p.profile_path == profile_path,
        p.action == ApplyAction::CreateProfile,
        p.existing_block is None,
        p.planned_block == planned_block,
        p.cleaned_path == cleaned_path,
        !p.would_write,
{
    ApplyPlan {
        shell,
        profile_path,
        action: ApplyAction::CreateProfile,
        existing_block: None,
        planned_block,
        cleaned_path,
        would_write: false,
    }
}

/// The plan for an existing profile with the given content: replace its managed block
/// when it has one, else append; an error for malformed blocks.
pub fn plan_for_existing(
    shell: ShellKind,
    profile_path: String,
    content: &str,
    planned_block: String,
    cleaned_path: String,
) -> (r: Result<ApplyPlan, String>)
    ensures
        match (r, block_span(content@)) {
            (Ok(p), Ok(span)) => {
                &&& p.shell == shell
                &&& p.profile_path == profile_path
                &&& p.planned_block == planned_block
                &&& p.cleaned_path == cleaned_path
                &&& !p.would_write
                &&& match span {
                    Some((a, b)) => p.action == ApplyAction::ReplaceBlock && opt_string_view(
                        p.existing_block,
                    ) == Some(content@.subrange(a, b)),
                    None => p.action == ApplyAction::AppendBlock && p.existing_block is None,
                }
            },
            (Err(e), Err(s)) => e@ == s,
            _ => false,
        },
{
    let existing_block = match existing_managed_block(content) {
        Ok(b) => b,
        Err(e) => return Err(e),
    };
    let action = if existing_block.is_some() {
        ApplyAction::ReplaceBlock
    } else {
        ApplyAction::AppendBlock
    };
    Ok(
        ApplyPlan {
            shell,
            profile_path,
            action,
            existing_block,
            planned_block,
            cleaned_path,
            would_write: false,
        },
    )
}

/// What planning a profile gives, given its text when it exists: a plan for a missing
/// profile that creates it; for a profile without marker lines, one that appends; for one
/// start marker line before one end marker line, one that replaces that block; the
/// "malformed" error for an end marker line before the start marker line; the "duplicate
/// or malformed" error for any other marker lines.
pub open spec fn profile_plan_cases(existing: Option<Seq<char>>, r: Result<ApplyPlan, String>) -> bool {
    match existing {
        None => r matches Ok(p) && p.action == ApplyAction::CreateProfile && p.existing_block is None,
        Some(c) => {
            let starts = marker_positions(c, START_MARKER@);
            let ends = marker_positions(c, END_MARKER@);
            &&& (starts.len() == 0 && ends.len() == 0) ==> (r matches Ok(p) && p.action
                == ApplyAction::AppendBlock && p.existing_block is None)
            &&& (starts.len() == 1 && ends.len() == 1 && starts[0] < ends[0]) ==> (r matches Ok(p)
                && p.action == ApplyAction::ReplaceBlock && opt_string_view(p.existing_block)
                == Some(c.subrange(starts[0], next_newline(c, ends[0] + END_MARKER@.len()))))
            &&& (starts.len() == 1 && ends.len() == 1 && starts[0] >= ends[0]) ==> (r matches Err(
                e,
            ) && e@ == malformed_error())
            &&& !((starts.len() == 0 && ends.len() == 0) || (starts.len() == 1 && ends.len()
                == 1)) ==> (r matches Err(e) && e@ == duplicate_error())
        },
    }
}

/// A plan that keeps the shell, the path, the planned block and the cleaned value, and
/// writes nothing yet.
pub open spec fn plan_keeps(
    p: ApplyPlan,
    shell: ShellKind,
    profile_path: Seq<char>,
    planned_block: Seq<char>,
    cleaned_path: Seq<char>,
) -> bool {
    &&& p.shell == shell
    &&& p.profile_path@ == profile_path
    &&& p.planned_block@ == planned_block
    &&& p.cleaned_path@ == cleaned_path
    &&& !p.would_write
}

/// The plan for a profile, given its text when it exists (see `profile_plan_cases`).
pub fn plan_for_profile(
    shell: ShellKind,
    profile_path: String,
    existing: Option<&str>,
    planned_block: String,
    cleaned_path: String,
) -> (r: Result<ApplyPlan, String>)
    ensures
        r matches Ok(p) ==> plan_keeps(p, shell, profile_path@, planned_block@, cleaned_path@),
        profile_plan_cases(
            match existing {
                Some(c) => Some(c@),
                None => None,
            },
            r,
        ),
{
    match existing {
        None => Ok(plan_for_missing(shell, profile_path, planned_block, cleaned_path)),
        Some(content) => plan_for_existing(shell, profile_path, content, planned_block, cleaned_path),
    }
}

/// What the filesystem shows at the profile's path.
#[derive(Clone, Debug, PartialEq, Eq)]
pub enum ProfileState {
    /// Nothing is there.
    Missing,
    /// Something that is not a regular file is there.
    NotAFile,
    /// A file that could not be read, with the error text.
    Unreadable(String),
    /// A file with this text.
    Text(String),
}

/// The cleaned PATH and the managed block planned for a shell, under some resolution of
/// the platform mode.
pub open spec fn planned_for(
    path_value: Seq<char>,
    platform_mode: PlatformMode,
    shell: ShellKind,
    policy: PathPolicy,
    cleaned: Seq<char>,
    block: Seq<char>,
) -> bool {
    exists|m: PlatformMode|
        resolves_to(platform_mode, m) && {
            let entries = clean_model(
                path_value,
                separator_of(m),
                case_sensitive_of(m),
                PathVariable::Path,
                drop_keys(policy, case_sensitive_of(m)),
            );
            &&& cleaned == join_with(entries, seq![separator_of(m)])
            &&& block == managed_block_text(
                export_text(entries, separator_of(m), shell, PathVariable::Path),
            )
        }
}

/// The plan of `apply` from what the profile's path holds: the error for something that is
/// not a file or a file that cannot be read; otherwise the plan for the profile text (or its
/// absence), whose cleaned PATH and block are those of the PATH value under the policy,
/// and which writes nothing.
pub fn plan_apply_from_state(
    path_value: &str,
    platform_mode: PlatformMode,
    pathext: Option<&str>,
    shell: ShellKind,
    policy: &PathPolicy,
    profile_path: String,
    state: ProfileState,
) -> (r: Result<ApplyPlan, String>)
    ensures
        state == ProfileState::NotAFile ==> (r matches Err(e) && e@
            == "apply target profile is not a file: "@ + profile_path@),
        state matches ProfileState::Unreadable(err) ==> (r matches Err(e) && e@
            == "apply target profile is not readable: "@ + profile_path@ + " ("@ + err@ + ")"@),
        r matches Ok(p) ==> p.shell == shell && p.profile_path@ == profile_path@ && !p.would_write
            && planned_for(path_value@, platform_mode, shell, *policy, p.cleaned_path@, p.planned_block@),
        state == ProfileState::Missing ==> profile_plan_cases(None, r),
        state matches ProfileState::Text(c) ==> profile_plan_cases(Some(c@), r),
{
    match state {
        ProfileState::NotAFile => {
            let mut m = owned("apply target profile is not a file: ");
            append(&mut m, profile_path.as_str());
            Err(m)
        },
        ProfileState::Unreadable(err) => {
            let mut m = owned("apply target profile is not readable: ");
            append(&mut m, profile_path.as_str());
            append(&mut m, " (");
            append(&mut m, err.as_str());
            append(&mut m, ")");
            Err(m)
        },
        ProfileState::Missing => {
            let (cleaned, block) = planned_block_for(path_value, platform_mode, pathext, shell, policy);
            plan_for_profile(shell, profile_path, None, block, cleaned)
        },
        ProfileState::Text(content) => {
            let (cleaned, block) = planned_block_for(path_value, platform_mode, pathext, shell, policy);
            plan_for_profile(shell, profile_path, Some(content.as_str()), block, cleaned)
        },
    }
}

/// How one attempt to copy the profile to a backup file ended.
#[derive(Clone, Debug, PartialEq, Eq)]
pub enum BackupAttempt {
    /// The backup was written.
    Copied,
    /// A file of that name is already there.
    AlreadyExists,
    /// The copy failed with this error text.
    Failed(String),
}

/// The step after a backup attempt with a suffix: done when copied; the next suffix when a
/// file of that name exists; the backup error, naming the profile and the backup, otherwise.
pub fn backup_step(
    suffix: usize,
    attempt: BackupAttempt,
    profile_path: &str,
    backup_path: &str,
) -> (r: Result<Option<usize>, String>)
    requires
        attempt == BackupAttempt::AlreadyExists ==> suffix < usize::MAX,
    ensures
        attempt == BackupAttempt::Copied ==> r == Ok::<Option<usize>, String>(None),
        attempt == BackupAttempt::AlreadyExists ==> r == Ok::<Option<usize>, String>(
            Some((suffix + 1) as usize),
        ),
        attempt matches BackupAttempt::Failed(e) ==> (r matches Err(m) && m@
            == "apply backup failed for "@ + profile_path@ + ": "@ + backup_path@ + " ("@ + e@
            + ")"@),
{
    match attempt {
        BackupAttempt::Copied => Ok(None),
        BackupAttempt::AlreadyExists => Ok(Some(suffix + 1)),
        BackupAttempt::Failed(e) => {
            let mut m = owned("apply backup failed for ");
            append(&mut m, profile_path);
            append(&mut m, ": ");
            append(&mut m, backup_path);
            append(&mut m, " (");
            append(&mut m, e.as_str());
            append(&mut m, ")");
            Err(m)
        },
    }
}

/// Where the default profile of a shell lies: under the user profile directory (`true`)
/// for PowerShell under Windows rules, else under the home directory (`false`), at the
/// shell's relative path; the error asking for that directory when it is not known.
pub fn default_profile_location(
    shell: ShellKind,
    resolved_mode: PlatformMode,
    has_home: bool,
    has_user_profile: bool,
) -> (r: Result<(bool, &'static str), &'static str>)
    ensures
        ({
            let under_user_profile = shell == ShellKind::Pwsh && resolved_mode == PlatformMode::Windows;
            let known = if under_user_profile {
                has_user_profile
            } else {
                has_home
            };
            &&& known ==> (r matches Ok((u, rel)) && u == under_user_profile && rel@
                == default_relative(shell, resolved_mode))
            &&& !known ==> (r matches Err(m) && m@ == home_error(shell, resolved_mode))
        }),
{
    let under_user_profile = uses_user_profile_dir(shell, resolved_mode);
    let known = if under_user_profile {
        has_user_profile
    } else {
        has_home
    };
    if known {
        Ok((under_user_profile, default_profile_relative_path(shell, resolved_mode)))
    } else {
        Err(missing_home_message(shell, resolved_mode))
    }
}

/// The view of an optional string.
pub open spec fn opt_string_view(o: Option<String>) -> Option<Seq<char>> {
    match o {
        Some(s) => Some(s@),
        None => None,
    }
}

/// The text to write for a plan, given whether the profile exists now and, for the
/// append and replace actions, its current content. The plan must still fit the profile:
/// a created profile must still be missing, an appended one must still have no block, and
/// a replaced one must still have the same block; otherwise the change is reported.
pub open spec fn write_text(
    action: ApplyAction,
    profile_exists: bool,
    existing: Seq<char>,
    existing_block: Option<Seq<char>>,
    planned_block: Seq<char>,
) -> Result<Seq<char>, Seq<char>> {
    match action {
        ApplyAction::CreateProfile => if profile_exists {
            Err(changed_error())
        } else {
            Ok(planned_block + "\n"@)
        },
        ApplyAction::AppendBlock => match block_span(existing) {
            Err(e) => Err(e),
            Ok(Some(_)) => Err(changed_error()),
            Ok(None) => Ok(appended_text(existing, planned_block)),
        },
        ApplyAction::ReplaceBlock => match block_span(existing) {
            Err(e) => Err(e),
            Ok(span) => {
                let current = match span {
                    Some((a, b)) => Some(existing.subrange(a, b)),
                    None => None,
                };
                if current != existing_block {
                    Err(changed_error())
                } else {
                    replaced_text(existing, planned_block)
                }
            },
        },
    }
}

/// Whether two optional strings are equal.
fn same_opt_text(a: &Option<String>, b: &Option<String>) -> (r: bool)
    ensures
        r == (opt_string_view(*a) == opt_string_view(*b)),
{
    match (a, b) {
        (Some(x), Some(y)) => crate::text::same_text(x.as_str(), y.as_str()),
        (None, None) => true,
        _ => false,
    }
}

/// The text to write for a plan.
pub fn planned_profile_content(plan: &ApplyPlan, profile_exists: bool, existing: &str) -> (r:
    Result<String, String>)
    ensures
        match (
            r,
            write_text(
                plan.action,
                profile_exists,
                existing@,
                opt_string_view(plan.existing_block),
                plan.planned_block@,
            ),
        ) {
            (Ok(t), Ok(s)) => t@ == s,
            (Err(e), Err(s)) => e@ == s,
            _ => false,
        },
{
    match plan.action {
        ApplyAction::CreateProfile => {
            if profile_exists {
                return Err(owned("apply target profile changed before write; rerun apply"));
            }
            let mut t = plan.planned_block.clone();
            append(&mut t, "\n");
            Ok(t)
        },
        ApplyAction::AppendBlock => {
            match existing_managed_block(existing) {
                Err(e) => Err(e),
                Ok(Some(_)) => Err(owned("apply target profile changed before write; rerun apply")),
                Ok(None) => Ok(appended_profile_content(existing, plan.planned_block.as_str())),
            }
        },
        ApplyAction::ReplaceBlock => {
            match existing_managed_block(existing) {
                Err(e) => Err(e),
                Ok(current) => {
                    if !same_opt_text(&current, &plan.existing_block) {
                        Err(owned("apply target profile changed before write; rerun apply"))
                    } else {
                        replaced_profile_content(existing, plan.planned_block.as_str())
                    }
                },
            }
        },
    }
}

/// Whether the default profile of a shell lives under the Windows user profile directory
/// (PowerShell under Windows rules) rather than the home directory.
pub fn uses_user_profile_dir(shell: ShellKind, resolved_mode: PlatformMode) -> (r: bool)
    ensures
        r == (shell == ShellKind::Pwsh && resolved_mode == PlatformMode::Windows),
{
    shell == ShellKind::Pwsh && resolved_mode == PlatformMode::Windows
}

/// The error when no home directory is known for the default profile.
pub open spec fn home_error(shell: ShellKind, resolved_mode: PlatformMode) -> Seq<char> {
    if shell == ShellKind::Pwsh && resolved_mode == PlatformMode::Windows {
        "apply requires a home directory; set USERPROFILE, pass --home, or pass --profile"@
    } else {
        "apply requires a home directory; set HOME, pass --home, or pass --profile"@
    }
}

/// The default profile of a shell, relative to its home directory.
pub open spec fn default_relative(shell: ShellKind, resolved_mode: PlatformMode) -> Seq<char> {
    match shell {
        ShellKind::Bash => ".bashrc"@,
        ShellKind::Fish => ".config/fish/config.fish"@,
        ShellKind::Zsh => ".zshrc"@,
        ShellKind::Pwsh => if resolved_mode == PlatformMode::Windows {
            "Documents/PowerShell/Microsoft.PowerShell_profile.ps1"@
        } else {
            ".config/powershell/Microsoft.PowerShell_profile.ps1"@
        },
    }
}

/// The error when no home directory is known for the default profile.
pub fn missing_home_message(shell: ShellKind, resolved_mode: PlatformMode) -> (r: &'static str)
    ensures
        r@ == home_error(shell, resolved_mode),
{
    if uses_user_profile_dir(shell, resolved_mode) {
        "apply requires a home directory; set USERPROFILE, pass --home, or pass --profile"
    } else {
        "apply requires a home directory; set HOME, pass --home, or pass --profile"
    }
}

/// The default profile of a shell, relative to its home directory.
pub fn default_profile_relative_path(shell: ShellKind, resolved_mode: PlatformMode) -> (r:
    &'static str)
    ensures
        r@ == default_relative(shell, resolved_mode),
{
    match shell {
        ShellKind::Bash => ".bashrc",
        ShellKind::Fish => ".config/fish/config.fish",
        ShellKind::Zsh => ".zshrc",
        ShellKind::Pwsh => if resolved_mode == PlatformMode::Windows {
            "Documents/PowerShell/Microsoft.PowerShell_profile.ps1"
        } else {
            ".config/powershell/Microsoft.PowerShell_profile.ps1"
        },
    }
}

/// The file name of a profile backup: the profile's name, `.patholog-backup.`, the time in
/// seconds, and `.` with the attempt number from the second attempt on.
pub open spec fn backup_name(file_name: Seq<char>, seconds: u64, suffix: usize) -> Seq<char> {
    let base = file_name + ".patholog-backup."@ + decimal(seconds as nat);
    if suffix == 0 {
        base
    } else {
        base + "."@ + decimal(suffix as nat)
    }
}

/// The file name of a profile backup.
pub fn backup_file_name(file_name: &str, seconds: u64, suffix: usize) -> (r: String)
    ensures
        r@ == backup_name(file_name@, seconds, suffix),
{
    let mut r = owned(file_name);
    append(&mut r, ".patholog-backup.");
    append(&mut r, decimal_text_u64(seconds).as_str());
    if suffix != 0 {
        append(&mut r, ".");
        append(&mut r, decimal_text(suffix).as_str());
    }
    r
}

} // verus!

verus! {

/// Splitting `x`, a separator and `y` gives the pieces of `x` followed by those of `y`.
pub proof fn lemma_split_concat(x: Seq<char>, y: Seq<char>, sep: char)
    ensures
        split_on(x + seq![sep] + y, sep) == split_on(x, sep) + split_on(y, sep),
    decreases y.len(),
{
    let z = x + seq![sep] + y;
    if y.len() == 0 {
        assert(z == x + seq![sep]);
        assert(z.drop_last() == x);
        assert(z.last() == sep);
        assert(split_on(y, sep) == seq![Seq::<char>::empty()]);
        assert(split_on(z, sep) == split_on(x, sep).push(Seq::<char>::empty()));
        assert(split_on(x, sep).push(Seq::<char>::empty()) == split_on(x, sep) + seq![
            Seq::<char>::empty(),
        ]);
    } else {
        let y0 = y.drop_last();
        lemma_split_concat(x, y0, sep);
        crate::text::lemma_split_nonempty(y0, sep);
        assert(z.drop_last() == x + seq![sep] + y0);
        assert(z.last() == y.last());
        let a = split_on(x, sep);
        let b0 = split_on(y0, sep);
        if y.last() == sep {
            assert(split_on(y, sep) == b0.push(Seq::<char>::empty()));
            assert((a + b0).push(Seq::<char>::empty()) == a + b0.push(Seq::<char>::empty()));
        } else {
            let c = y.last();
            assert(split_on(y, sep) == b0.update(b0.len() - 1, b0.last().push(c)));
            assert((a + b0).last() == b0.last());
            assert((a + b0).update((a + b0).len() - 1, b0.last().push(c)) == a + b0.update(
                b0.len() - 1,
                b0.last().push(c),
            ));
        }
    }
}

/// The characters of two line lists add up.
pub proof fn lemma_lines_len_concat(a: Seq<Seq<char>>, b: Seq<Seq<char>>)
    ensures
        lines_len(a + b) == lines_len(a) + lines_len(b),
    decreases b.len(),
{
    if b.len() == 0 {
        assert(a + b == a);
    } else {
        lemma_lines_len_concat(a, b.drop_last());
        assert((a + b).drop_last() == a + b.drop_last());
        assert((a + b).last() == b.last());
    }
}

/// The marker lines of two line lists: those of the first, then those of the second
/// shifted by the length of the first.
pub proof fn lemma_marker_lines_concat(a: Seq<Seq<char>>, b: Seq<Seq<char>>, marker: Seq<char>)
    ensures
        marker_lines(a + b, marker) == marker_lines(a, marker) + marker_lines(b, marker).map_values(
            |o: int| o + lines_len(a),
        ),
    decreases b.len(),
{
    let f = |o: int| o + lines_len(a);
    if b.len() == 0 {
        assert(a + b == a);
        assert(marker_lines(b, marker).map_values(f) == Seq::<int>::empty());
    } else {
        let b0 = b.drop_last();
        lemma_marker_lines_concat(a, b0, marker);
        lemma_lines_len_concat(a, b0);
        assert((a + b).drop_last() == a + b0);
        assert((a + b).last() == b.last());
        let acc = marker_lines(b0, marker);
        if strip_cr(b.last()) == marker {
            assert(marker_lines(b, marker) == acc.push(lines_len(b0)));
            assert(acc.push(lines_len(b0)).map_values(f) == acc.map_values(f).push(
                lines_len(b0) + lines_len(a),
            ));
            assert(marker_lines(a + b, marker) == (marker_lines(a, marker) + acc.map_values(f)).push(
                lines_len(a + b0),
            ));
        } else {
            assert(marker_lines(b, marker) == acc);
        }
    }
}

/// A single line list has a marker line exactly when the line is the marker.
proof fn lemma_marker_lines_single(line: Seq<char>, marker: Seq<char>)
    ensures
        marker_lines(seq![line], marker) == (if strip_cr(line) == marker {
            seq![0int]
        } else {
            Seq::<int>::empty()
        }),
{
    let e = Seq::<Seq<char>>::empty();
    assert(seq![line].drop_last() == e);
    assert(seq![line].last() == line);
    assert(marker_lines(e, marker) == Seq::<int>::empty());
    assert(lines_len(e) == 0);
    assert(Seq::<int>::empty().push(0) == seq![0int]);
}

} // verus!

verus! {

/// A text without separators splits into itself.
proof fn lemma_split_plain(s: Seq<char>, sep: char)
    requires
        !s.contains(sep),
    ensures
        split_on(s, sep) == seq![s],
{
    let e = Seq::<char>::empty();
    crate::text::lemma_split_append_plain(e, s, sep);
    assert(e + s == s);
    assert(split_on(e, sep) == seq![e]);
    assert(e + s == s);
}

/// The marker lines of the lines of a profile around a managed block: the start marker at
/// the block's first line and the end marker at its last, when the lines before and after
/// hold no marker line.
proof fn lemma_block_lines(
    front: Seq<Seq<char>>,
    snippet: Seq<char>,
    back: Seq<Seq<char>>,
    marker: Seq<char>,
)
    requires
        marker.len() > 0,
        marker_lines(front, marker).len() == 0,
        marker_lines(split_on(snippet, '\n'), marker).len() == 0,
        marker_lines(back, marker).len() == 0,
    ensures
        marker_lines(
            front + seq![START_MARKER@] + split_on(snippet, '\n') + seq![END_MARKER@] + back,
            marker,
        ) == (if marker == START_MARKER@ {
            seq![lines_len(front)]
        } else if marker == END_MARKER@ {
            seq![lines_len(front) + START_MARKER@.len() + 1 + snippet.len() + 1]
        } else {
            Seq::<int>::empty()
        }),
{
    reveal_strlit("# >>> patholog PATH >>>");
    reveal_strlit("# <<< patholog PATH <<<");
    let s = START_MARKER@;
    let e = END_MARKER@;
    let sn = split_on(snippet, '\n');
    let l1 = front + seq![s];
    let l2 = l1 + sn;
    let l3 = l2 + seq![e];
    let l4 = l3 + back;
    lemma_marker_lines_concat(front, seq![s], marker);
    lemma_marker_lines_concat(l1, sn, marker);
    lemma_marker_lines_concat(l2, seq![e], marker);
    lemma_marker_lines_concat(l3, back, marker);
    lemma_marker_lines_single(s, marker);
    lemma_marker_lines_single(e, marker);
    lemma_lines_len_concat(front, seq![s]);
    lemma_lines_len_concat(l1, sn);
    crate::text::lemma_split_lines_len(snippet, '\n');
    assert(seq![s].drop_last() == Seq::<Seq<char>>::empty());
    assert(seq![s].last() == s);
    assert(lines_len(Seq::<Seq<char>>::empty()) == 0);
    assert(lines_len(seq![s]) == s.len() + 1);
    assert(strip_cr(s) == s);
    assert(strip_cr(e) == e);
    assert(s != e) by {
        assert(s[2] != e[2]);
    }
    assert(marker_lines(sn, marker).map_values(|o: int| o + lines_len(l1)) == Seq::<int>::empty());
    assert(marker_lines(back, marker).map_values(|o: int| o + lines_len(l3))
        == Seq::<int>::empty());
    assert(marker_lines(l2, marker) == marker_lines(l1, marker));
    assert(marker_lines(l4, marker) == marker_lines(l3, marker));
    if marker == s {
        assert(marker_lines(seq![s], marker).map_values(|o: int| o + lines_len(front)) == seq![
            lines_len(front),
        ]);
        assert(marker_lines(l1, marker) == seq![lines_len(front)]);
        assert(marker_lines(seq![e], marker) == Seq::<int>::empty());
        assert(marker_lines(seq![e], marker).map_values(|o: int| o + lines_len(l2))
            == Seq::<int>::empty());
        assert(marker_lines(l3, marker) == marker_lines(l2, marker));
    } else if marker == e {
        assert(marker_lines(seq![s], marker) == Seq::<int>::empty());
        assert(marker_lines(seq![s], marker).map_values(|o: int| o + lines_len(front))
            == Seq::<int>::empty());
        assert(marker_lines(l1, marker) == Seq::<int>::empty());
        assert(marker_lines(seq![e], marker).map_values(|o: int| o + lines_len(l2)) == seq![
            lines_len(l2),
        ]);
        assert(marker_lines(l3, marker) == seq![lines_len(l2)]);
    } else {
        assert(marker_lines(seq![s], marker).map_values(|o: int| o + lines_len(front))
            == Seq::<int>::empty());
        assert(marker_lines(l1, marker) == Seq::<int>::empty());
        assert(marker_lines(seq![e], marker).map_values(|o: int| o + lines_len(l2))
            == Seq::<int>::empty());
        assert(marker_lines(l3, marker) == Seq::<int>::empty());
    }
}

} // verus!

verus! {

/// The lines of a profile made of `front_text`, a newline, and an appended block.
proof fn lemma_appended_lines(h0: Seq<char>, snippet: Seq<char>)
    ensures
        split_on(h0 + "\n"@ + managed_block_text(snippet) + "\n"@, '\n') == split_on(h0, '\n')
            + seq![START_MARKER@] + split_on(snippet, '\n') + seq![END_MARKER@] + seq![
            Seq::<char>::empty(),
        ],
        split_on(managed_block_text(snippet) + "\n"@, '\n') == seq![START_MARKER@] + split_on(
            snippet,
            '\n',
        ) + seq![END_MARKER@] + seq![Seq::<char>::empty()],
{
    reveal_strlit("# >>> patholog PATH >>>");
    reveal_strlit("# <<< patholog PATH <<<");
    reveal_strlit("\n");
    let s = START_MARKER@;
    let e = END_MARKER@;
    let empty = Seq::<char>::empty();
    let nl = seq!['\n'];
    assert("\n"@ == nl);
    assert(!s.contains('\n')) by {
        if s.contains('\n') {
            let k = choose|k: int| 0 <= k < s.len() && s[k] == '\n';
        }
    }
    assert(!e.contains('\n')) by {
        if e.contains('\n') {
            let k = choose|k: int| 0 <= k < e.len() && e[k] == '\n';
        }
    }
    lemma_split_plain(s, '\n');
    lemma_split_plain(e, '\n');
    let r2 = e + nl + empty;
    let r1 = snippet + nl + r2;
    let r0 = s + nl + r1;
    lemma_split_concat(e, empty, '\n');
    lemma_split_concat(snippet, r2, '\n');
    lemma_split_concat(s, r1, '\n');
    lemma_split_concat(h0, r0, '\n');
    assert(split_on(empty, '\n') == seq![empty]);
    assert(managed_block_text(snippet) + "\n"@ =~= r0);
    assert(h0 + "\n"@ + managed_block_text(snippet) + "\n"@ =~= h0 + nl + r0);
    assert(split_on(r2, '\n') == seq![e] + seq![empty]);
    assert(split_on(r0, '\n') =~= seq![s] + split_on(snippet, '\n') + seq![e] + seq![empty]);
    assert(split_on(h0 + nl + r0, '\n') =~= split_on(h0, '\n') + seq![s] + split_on(snippet, '\n')
        + seq![e] + seq![empty]);
}

/// Appending the managed block to a profile that has none, in LF line endings, gives a
/// profile whose one managed block is found again exactly as it was written, provided no
/// line of the exported snippet is itself a marker line.
pub proof fn law_appended_block_is_found(existing: Seq<char>, snippet: Seq<char>)
    requires
        block_span(existing) == Ok::<Option<(int, int)>, Seq<char>>(None),
        !has_crlf(existing),
        marker_positions(snippet, START_MARKER@).len() == 0,
        marker_positions(snippet, END_MARKER@).len() == 0,
    ensures
        match block_span(appended_text(existing, managed_block_text(snippet))) {
            Ok(Some((a, b))) => appended_text(existing, managed_block_text(snippet)).subrange(a, b)
                == managed_block_text(snippet),
            _ => false,
        },
{
    reveal_strlit("# >>> patholog PATH >>>");
    reveal_strlit("# <<< patholog PATH <<<");
    reveal_strlit("\n");
    let s = START_MARKER@;
    let e = END_MARKER@;
    let block = managed_block_text(snippet);
    let content = appended_text(existing, block);
    assert(line_ending(existing) == "\n"@);
    assert(block_with_ending(block, "\n"@) == block);
    let sn = split_on(snippet, '\n');
    let empty_lines = Seq::<Seq<char>>::empty();
    // The text before the block, and the lines it splits into.
    let (head, front) = if existing.len() == 0 {
        (existing, empty_lines)
    } else if crate::text::ends_with(existing, "\n"@) {
        (existing + "\n"@, split_on(existing, '\n'))
    } else {
        (existing + "\n"@ + "\n"@, split_on(existing + "\n"@, '\n'))
    };
    assert(content == head + block + "\n"@);
    lemma_appended_lines(existing, snippet);
    lemma_appended_lines(existing + "\n"@, snippet);
    lemma_split_concat(existing, Seq::<char>::empty(), '\n');
    assert(existing + seq!['\n'] + Seq::<char>::empty() == existing + "\n"@);
    assert(split_on(Seq::<char>::empty(), '\n') == seq![Seq::<char>::empty()]);
    let starts0 = marker_positions(existing, s);
    let ends0 = marker_positions(existing, e);
    assert(starts0.len() == 0 && ends0.len() == 0);
    let lines = front + seq![s] + sn + seq![e] + seq![Seq::<char>::empty()];
    if existing.len() == 0 {
        assert(head + block + "\n"@ == block + "\n"@);
        assert(split_on(content, '\n') == lines) by {
            assert(empty_lines + seq![s] == seq![s]);
        }
        assert(marker_lines(front, s).len() == 0);
        assert(marker_lines(front, e).len() == 0);
        assert(lines_len(front) == 0);
    } else if crate::text::ends_with(existing, "\n"@) {
        assert(content == existing + "\n"@ + block + "\n"@);
        crate::text::lemma_split_lines_len(existing, '\n');
    } else {
        assert(content == (existing + "\n"@) + "\n"@ + block + "\n"@);
        crate::text::lemma_split_lines_len(existing + "\n"@, '\n');
        let one = seq![Seq::<char>::empty()];
        assert(front == split_on(existing, '\n') + one);
        lemma_marker_lines_concat(split_on(existing, '\n'), one, s);
        lemma_marker_lines_concat(split_on(existing, '\n'), one, e);
        lemma_marker_lines_single(Seq::<char>::empty(), s);
        lemma_marker_lines_single(Seq::<char>::empty(), e);
        assert(s.len() > 0 && e.len() > 0);
        assert(strip_cr(Seq::<char>::empty()) == Seq::<char>::empty());
    }
    assert(split_on(content, '\n') == lines);
    assert(lines_len(front) == head.len());
    let tail = seq![Seq::<char>::empty()];
    lemma_marker_lines_single(Seq::<char>::empty(), s);
    lemma_marker_lines_single(Seq::<char>::empty(), e);
    assert(strip_cr(Seq::<char>::empty()) == Seq::<char>::empty());
    lemma_block_lines(front, snippet, tail, s);
    lemma_block_lines(front, snippet, tail, e);
    assert(s != e) by {
        assert(s[2] != e[2]);
    }
    let a = head.len() as int;
    let starts = marker_positions(content, s);
    let ends = marker_positions(content, e);
    assert(starts == seq![a]);
    let ep = a + s.len() + 1 + snippet.len() + 1;
    assert(ends == seq![ep]);
    let b = ep + e.len();
    assert(block.len() == s.len() + 1 + snippet.len() + 1 + e.len());
    assert(content[b] == '\n') by {
        assert(content == head + block + "\n"@);
        assert(b == head.len() + block.len());
    }
    assert(next_newline(content, b) == b);
    assert(content.subrange(a, b) =~= block);
}

} // verus!

verus! {

/// Each marker line offset is where some line starts, and that line is the marker.
proof fn lemma_marker_lines_index(lines: Seq<Seq<char>>, marker: Seq<char>, k: int)
    requires
        0 <= k < marker_lines(lines, marker).len(),
    ensures
        exists|idx: int|
            0 <= idx < lines.len() && marker_lines(lines, marker)[k] == lines_len(
                #[trigger] lines.take(idx),
            ) && strip_cr(lines[idx]) == marker,
    decreases lines.len(),
{
    let init = lines.drop_last();
    let acc = marker_lines(init, marker);
    if k < acc.len() {
        lemma_marker_lines_index(init, marker, k);
        let idx = choose|idx: int|
            0 <= idx < init.len() && acc[k] == lines_len(#[trigger] init.take(idx)) && strip_cr(
                init[idx],
            ) == marker;
        assert(init.take(idx) == lines.take(idx));
        assert(init[idx] == lines[idx]);
    } else {
        let idx = lines.len() - 1;
        assert(lines.take(idx) == init);
        assert(lines[idx] == lines.last());
    }
}

/// A line after the first starts right after a separator.
proof fn lemma_line_start_after_sep(s: Seq<char>, sep: char, idx: int)
    requires
        1 <= idx < split_on(s, sep).len(),
    ensures
        1 <= lines_len(split_on(s, sep).take(idx)) <= s.len(),
        s[lines_len(split_on(s, sep).take(idx)) - 1] == sep,
    decreases s.len(),
{
    let t = s.drop_last();
    crate::text::lemma_split_nonempty(t, sep);
    crate::text::lemma_split_lines_len(t, sep);
    let init = split_on(t, sep);
    let n = init.len();
    lemma_lines_len_prefix(init, idx - 1);
    assert(init.take(idx - 1).len() < n);
    if s.last() == sep {
        assert(split_on(s, sep) == init.push(Seq::<char>::empty()));
        assert(split_on(s, sep).take(idx) == init.take(idx));
        if idx < n {
            lemma_line_start_after_sep(t, sep, idx);
            let p = lines_len(init.take(idx));
            assert(s[p - 1] == t[p - 1]);
        } else {
            assert(init.take(idx) == init);
            assert(s[s.len() - 1] == sep);
        }
    } else {
        let up = init.update(n - 1, init.last().push(s.last()));
        assert(split_on(s, sep) == up);
        assert(idx < n);
        assert(up.take(idx) == init.take(idx));
        lemma_line_start_after_sep(t, sep, idx);
        let p = lines_len(init.take(idx));
        assert(s[p - 1] == t[p - 1]);
    }
}

/// The next newline lies between the start and the end, and is a newline unless it is
/// the end.
proof fn lemma_next_newline(c: Seq<char>, from: int)
    requires
        0 <= from <= c.len(),
    ensures
        from <= next_newline(c, from) <= c.len(),
        next_newline(c, from) < c.len() ==> c[next_newline(c, from)] == '\n',
    decreases c.len() - from,
{
    if from < c.len() && c[from] != '\n' {
        lemma_next_newline(c, from + 1);
    }
}

} // verus!

verus! {

/// A text made of an optional head line run, a middle, and an optional tail, joined by
/// newlines.
pub open spec fn around(
    has_head: bool,
    head: Seq<char>,
    middle: Seq<char>,
    has_tail: bool,
    tail: Seq<char>,
) -> Seq<char> {
    (if has_head {
        head + "\n"@
    } else {
        Seq::<char>::empty()
    }) + middle + (if has_tail {
        "\n"@ + tail
    } else {
        Seq::<char>::empty()
    })
}

/// The lines of a head, when there is one.
pub open spec fn head_lines(has_head: bool, head: Seq<char>) -> Seq<Seq<char>> {
    if has_head {
        split_on(head, '\n')
    } else {
        Seq::<Seq<char>>::empty()
    }
}

/// The lines of such a text: those of the head, of the middle, then of the tail.
proof fn lemma_split_around(
    has_head: bool,
    head: Seq<char>,
    middle: Seq<char>,
    has_tail: bool,
    tail: Seq<char>,
)
    ensures
        split_on(around(has_head, head, middle, has_tail, tail), '\n') == head_lines(has_head, head)
            + split_on(middle, '\n') + head_lines(has_tail, tail),
{
    reveal_strlit("\n");
    let nl = seq!['\n'];
    let e = Seq::<char>::empty();
    let lines_e = Seq::<Seq<char>>::empty();
    let t = around(has_head, head, middle, has_tail, tail);
    if has_head && has_tail {
        lemma_split_concat(middle, tail, '\n');
        lemma_split_concat(head, middle + nl + tail, '\n');
        assert(t =~= head + nl + (middle + nl + tail));
    } else if has_head {
        lemma_split_concat(head, middle, '\n');
        assert(t =~= head + nl + middle);
        assert(split_on(head, '\n') + split_on(middle, '\n') + lines_e =~= split_on(head, '\n')
            + split_on(middle, '\n'));
    } else if has_tail {
        lemma_split_concat(middle, tail, '\n');
        assert(t =~= middle + nl + tail);
        assert(lines_e + split_on(middle, '\n') + split_on(tail, '\n') =~= split_on(middle, '\n')
            + split_on(tail, '\n'));
    } else {
        assert(t =~= middle);
        assert(lines_e + split_on(middle, '\n') + lines_e =~= split_on(middle, '\n'));
    }
}

/// The lines of a managed block: the start marker, the snippet's lines, the end marker.
proof fn lemma_split_block(snippet: Seq<char>)
    ensures
        split_on(managed_block_text(snippet), '\n') == seq![START_MARKER@] + split_on(snippet, '\n')
            + seq![END_MARKER@],
{
    reveal_strlit("# >>> patholog PATH >>>");
    reveal_strlit("# <<< patholog PATH <<<");
    reveal_strlit("\n");
    let s = START_MARKER@;
    let e = END_MARKER@;
    let nl = seq!['\n'];
    assert(!s.contains('\n')) by {
        if s.contains('\n') {
            let k = choose|k: int| 0 <= k < s.len() && s[k] == '\n';
        }
    }
    assert(!e.contains('\n')) by {
        if e.contains('\n') {
            let k = choose|k: int| 0 <= k < e.len() && e[k] == '\n';
        }
    }
    lemma_split_plain(s, '\n');
    lemma_split_plain(e, '\n');
    lemma_split_concat(snippet, e, '\n');
    lemma_split_concat(s, snippet + nl + e, '\n');
    assert(managed_block_text(snippet) =~= s + nl + (snippet + nl + e));
    assert(split_on(s + nl + (snippet + nl + e), '\n') =~= seq![s] + split_on(snippet, '\n')
        + seq![e]);
}

} // verus!

verus! {

/// Line offsets are never negative.
proof fn lemma_lines_len_nonneg(lines: Seq<Seq<char>>)
    ensures
        lines_len(lines) >= 0,
    decreases lines.len(),
{
    if lines.len() > 0 {
        lemma_lines_len_nonneg(lines.drop_last());
    }
}

/// Replacing the managed block of a profile, in LF line endings, gives a profile whose one
/// managed block is found again exactly as it was written, provided no line of the
/// exported snippet is itself a marker line. With the appending law, running `apply` again
/// finds and replaces the block it wrote before.
pub proof fn law_replaced_block_is_found(existing: Seq<char>, snippet: Seq<char>)
    requires
        block_span(existing) matches Ok(Some(_)),
        !has_crlf(existing),
        marker_positions(snippet, START_MARKER@).len() == 0,
        marker_positions(snippet, END_MARKER@).len() == 0,
    ensures
        match replaced_text(existing, managed_block_text(snippet)) {
            Ok(t) => match block_span(t) {
                Ok(Some((a, b))) => t.subrange(a, b) == managed_block_text(snippet),
                _ => false,
            },
            Err(_) => false,
        },
{
    reveal_strlit("# >>> patholog PATH >>>");
    reveal_strlit("# <<< patholog PATH <<<");
    reveal_strlit("\n");
    reveal_strlit("\r\n");
    let s = START_MARKER@;
    let e = END_MARKER@;
    let block = managed_block_text(snippet);
    let n = existing.len() as int;
    let lines = split_on(existing, '\n');
    let starts = marker_positions(existing, s);
    let ends = marker_positions(existing, e);
    assert(starts.len() == 1 && ends.len() == 1 && starts[0] < ends[0]);
    let a = starts[0];
    let ep = ends[0];
    lemma_marker_in_bounds(existing, e, 0);
    lemma_marker_in_bounds(existing, s, 0);
    lemma_marker_lines_index(lines, s, 0);
    let idx = choose|idx: int|
        0 <= idx < lines.len() && starts[0] == lines_len(#[trigger] lines.take(idx)) && strip_cr(
            lines[idx],
        ) == s;
    lemma_lines_len_nonneg(lines.take(idx));
    let from = ep + e.len();
    lemma_next_newline(existing, from);
    let b = next_newline(existing, from);
    assert(block_span(existing) == Ok::<Option<(int, int)>, Seq<char>>(Some((a, b))));
    let has_head = a > 0;
    let has_tail = b < n;
    if has_head {
        assert(lines.take(0) == Seq::<Seq<char>>::empty());
        assert(lines_len(Seq::<Seq<char>>::empty()) == 0);
        assert(idx != 0);
        lemma_line_start_after_sep(existing, '\n', idx);
    }
    let empty = Seq::<char>::empty();
    let head = if has_head {
        existing.take(a - 1)
    } else {
        empty
    };
    let middle = existing.subrange(a, b);
    let tail = if has_tail {
        existing.skip(b + 1)
    } else {
        empty
    };
    assert(existing =~= around(has_head, head, middle, has_tail, tail));
    lemma_split_around(has_head, head, middle, has_tail, tail);
    let front = head_lines(has_head, head);
    let back = head_lines(has_tail, tail);
    let mid = split_on(middle, '\n');
    assert(lines == front + mid + back);
    if has_head {
        crate::text::lemma_split_lines_len(head, '\n');
    }
    assert(lines_len(front) == a);
    crate::text::lemma_split_lines_len(middle, '\n');
    lemma_lines_len_concat(front, mid);
    let fm = front + mid;
    assert(lines_len(fm) == b + 1);
    lemma_marker_lines_concat(front, mid, s);
    lemma_marker_lines_concat(fm, back, s);
    lemma_marker_lines_concat(front, mid, e);
    lemma_marker_lines_concat(fm, back, e);
    // No marker line before the old block.
    if marker_lines(front, s).len() > 0 {
        lemma_marker_lines_bounds(front, s, 0);
        assert(starts[0] == marker_lines(front, s)[0]);
    }
    if marker_lines(front, e).len() > 0 {
        lemma_marker_lines_bounds(front, e, 0);
        assert(ends[0] == marker_lines(front, e)[0]);
    }
    // No marker line after it.
    if marker_lines(back, s).len() > 0 {
        lemma_marker_lines_index(back, s, 0);
        let j = choose|j: int|
            0 <= j < back.len() && marker_lines(back, s)[0] == lines_len(#[trigger] back.take(j))
                && strip_cr(back[j]) == s;
        lemma_lines_len_nonneg(back.take(j));
        let k = marker_lines(fm, s).len() as int;
        assert(starts[k] == marker_lines(back, s)[0] + lines_len(fm));
    }
    if marker_lines(back, e).len() > 0 {
        lemma_marker_lines_index(back, e, 0);
        let j = choose|j: int|
            0 <= j < back.len() && marker_lines(back, e)[0] == lines_len(#[trigger] back.take(j))
                && strip_cr(back[j]) == e;
        lemma_lines_len_nonneg(back.take(j));
        let k = marker_lines(fm, e).len() as int;
        assert(ends[k] == marker_lines(back, e)[0] + lines_len(fm));
    }
    // The new profile.
    assert(line_ending(existing) == "\n"@);
    assert("\n"@ != "\r\n"@) by {
        assert("\n"@.len() != "\r\n"@.len());
    }
    assert(block_with_ending(block, "\n"@) == block);
    let t = existing.take(a) + block + existing.skip(b);
    assert(replaced_text(existing, block) == Ok::<Seq<char>, Seq<char>>(t)) by {
        assert(existing.take(a) + block_with_ending(block, "\n"@) + Seq::<char>::empty()
            + existing.skip(b) =~= t);
    }
    assert(t =~= around(has_head, head, block, has_tail, tail));
    lemma_split_around(has_head, head, block, has_tail, tail);
    lemma_split_block(snippet);
    let sn = split_on(snippet, '\n');
    assert(split_on(t, '\n') =~= front + seq![s] + sn + seq![e] + back);
    assert(s.len() > 0 && e.len() > 0);
    lemma_block_lines(front, snippet, back, s);
    lemma_block_lines(front, snippet, back, e);
    let new_end = a + s.len() + 1 + snippet.len() + 1;
    assert(marker_positions(t, s) == seq![a]);
    assert(marker_positions(t, e) == seq![new_end]);
    let close = new_end + e.len();
    assert(close == a + block.len());
    if has_tail {
        assert(t[close] == '\n');
    } else {
        assert(t.len() == close);
    }
    assert(next_newline(t, close) == close);
    assert(t.subrange(a, close) =~= block);
}

} // verus!

verus! {

/// The managed block of a profile follows from its marker lines (a line counts when it is
/// exactly a marker, ignoring one trailing carriage return): no marker lines, no block;
/// one start marker line before one end marker line, the block from the start marker to
/// the end of the end marker's line; one end marker line before one start marker line, the
/// "malformed" error; any other count of marker lines, the "duplicate or malformed" error.
pub proof fn law_block_span_cases(content: Seq<char>)
    ensures
        ({
            let starts = marker_positions(content, START_MARKER@);
            let ends = marker_positions(content, END_MARKER@);
            &&& (starts.len() == 0 && ends.len() == 0) ==> block_span(content) == Ok::<
                Option<(int, int)>,
                Seq<char>,
            >(None)
            &&& (starts.len() == 1 && ends.len() == 1 && starts[0] < ends[0]) ==> block_span(content)
                == Ok::<Option<(int, int)>, Seq<char>>(
                Some((starts[0], next_newline(content, ends[0] + END_MARKER@.len()))),
            )
            &&& (starts.len() == 1 && ends.len() == 1 && starts[0] >= ends[0]) ==> block_span(content)
                == Err::<Option<(int, int)>, Seq<char>>(malformed_error())
            &&& !((starts.len() == 0 && ends.len() == 0) || (starts.len() == 1 && ends.len() == 1))
                ==> block_span(content) == Err::<Option<(int, int)>, Seq<char>>(duplicate_error())
        }),
{
}

/// Appending keeps the existing text in front and ends with the block, written with the
/// profile's line ending, and one line ending: an empty profile becomes just that, and
/// otherwise one blank line separates the existing text from the block.
pub proof fn law_appended_content(existing: Seq<char>, block: Seq<char>)
    ensures
        ({
            let le = line_ending(existing);
            let b = block_with_ending(block, le);
            let r = appended_text(existing, block);
            &&& crate::text::starts_with(r, existing)
            &&& crate::text::ends_with(r, b + le)
            &&& existing.len() == 0 ==> r == b + le
            &&& (existing.len() > 0 && crate::text::ends_with(existing, le)) ==> r == existing + le
                + b + le
            &&& (existing.len() > 0 && !crate::text::ends_with(existing, le)) ==> r == existing + le
                + le + b + le
        }),
{
    let le = line_ending(existing);
    let b = block_with_ending(block, le);
    let r = appended_text(existing, block);
    let head = if existing.len() == 0 {
        existing
    } else if crate::text::ends_with(existing, le) {
        existing + le
    } else {
        existing + le + le
    };
    assert(r == head + b + le);
    assert(r.subrange(0, existing.len() as int) =~= existing);
    assert(r.subrange(r.len() - (b + le).len(), r.len() as int) =~= b + le);
    if existing.len() == 0 {
        assert(r =~= b + le);
    }
}

} // verus!
