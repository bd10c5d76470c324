//! The file-to-text rendering rules: how content is split into lines and
//! truncated to a line limit, what the header line says, and the exact
//! four-part text block — header, delimiter, content, delimiter — appended
//! to the output for every included file. Also the per-file skip decisions
//! (oversized, undecodable) and the diagnostic lines they emit.

use crate::config::RunConfiguration;
use crate::meta::FileMetadataSnapshot;
use crate::size::{
    format_file_size, parse_file_size, spec_format_file_size, spec_invalid_size_message,
    spec_parse_file_size,
};
use crate::text::{chars_of, dec_digits, push_chars, push_decimal, push_str_chars, string_of};
use vstd::prelude::*;

verus! {

/// The index of the first newline in `c`, or `c.len()` if there is none.
pub open spec fn first_newline(c: Seq<char>) -> int
    decreases c.len(),
{
    if c.len() == 0 {
        0
    } else if c[0] == '\n' {
        0
    } else {
        1 + first_newline(c.drop_first())
    }
}

proof fn lemma_first_newline_bounds(c: Seq<char>)
    ensures
        0 <= first_newline(c) <= c.len(),
        first_newline(c) < c.len() ==> c[first_newline(c)] == '\n',
        forall|j: int| 0 <= j < first_newline(c) ==> c[j] != '\n',
    decreases c.len(),
{
    if c.len() > 0 && c[0] != '\n' {
        lemma_first_newline_bounds(c.drop_first());
        assert(forall|j: int| 0 < j < first_newline(c) ==> c[j] == c.drop_first()[j - 1]);
    }
}

proof fn lemma_first_newline_at(c: Seq<char>, k: int)
    requires
        0 <= k <= c.len(),
        k < c.len() ==> c[k] == '\n',
        forall|j: int| 0 <= j < k ==> c[j] != '\n',
        k == c.len() ==> forall|j: int| 0 <= j < c.len() ==> c[j] != '\n',
    ensures
        first_newline(c) == k,
    decreases c.len(),
{
    if c.len() > 0 && c[0] != '\n' {
        let d = c.drop_first();
        assert(forall|j: int| 0 <= j < d.len() ==> d[j] == c[j + 1]);
        lemma_first_newline_at(d, k - 1);
    }
}

#[via_fn]
proof fn spec_lines_decreases(c: Seq<char>) {
    lemma_first_newline_bounds(c);
}

/// The lines of `c`, as `str::lines` yields them: content split at each
/// newline, a carriage return directly before the split stripped, and the
/// optional final line ending producing no extra empty line. A last line
/// without a newline after it keeps a trailing carriage return.
pub open spec fn spec_lines(c: Seq<char>) -> Seq<Seq<char>>
    decreases c.len(),
    via spec_lines_decreases
{
    if c.len() == 0 {
        Seq::empty()
    } else {
        let k = first_newline(c);
        if k == c.len() {
            seq![c]
        } else {
            let line = if k > 0 && c[k - 1] == '\r' {
                c.take(k - 1)
            } else {
                c.take(k)
            };
            seq![line] + spec_lines(c.skip(k + 1))
        }
    }
}

/// The lines joined back together with single newlines.
pub open spec fn spec_joined(lines: Seq<Seq<char>>) -> Seq<char>
    decreases lines.len(),
{
    if lines.len() == 0 {
        Seq::empty()
    } else if lines.len() == 1 {
        lines[0]
    } else {
        lines[0] + seq!['\n'] + spec_joined(lines.drop_first())
    }
}

/// The marker appended in place of the dropped tail of a long file.
pub open spec fn truncation_marker() -> Seq<char> {
    "\n... (truncated)"@
}

/// Law (truncation): under line limit `n`, the kept content is exactly the
/// first `n` lines joined by newline followed by the marker when the file
/// has more than `n` lines; with `n` at or above the line count, all lines
/// are joined and no marker appears.
pub open spec fn spec_line_limited(c: Seq<char>, n: int) -> Seq<char> {
    let ls = spec_lines(c);
    if ls.len() > n {
        spec_joined(ls.take(n)) + truncation_marker()
    } else {
        spec_joined(ls)
    }
}

/// The body of the rendered block: the content itself, or its line-limited
/// form when a limit is configured.
pub open spec fn spec_processed_content(c: Seq<char>, max_lines: Option<usize>) -> Seq<char> {
    match max_lines {
        Some(n) => spec_line_limited(c, n as int),
        None => c,
    }
}

/// Splits `v` into its lines.
fn split_lines(v: &Vec<char>) -> (r: Vec<Vec<char>>)
    ensures
        r@.map_values(|l: Vec<char>| l@) == spec_lines(v@),
{
    let mut out: Vec<Vec<char>> = Vec::new();
    let mut cur: Vec<char> = Vec::new();
    let mut i: usize = 0;
    proof {
        assert(v@.skip(0) =~= v@);
    }
    while i < v.len()
        invariant
            cur@.len() <= i <= v.len(),
            cur@ == v@.subrange(i - cur@.len(), i as int),
            forall|j: int| 0 <= j < cur@.len() ==> cur@[j] != '\n',
            spec_lines(v@) == out@.map_values(|l: Vec<char>| l@) + spec_lines(
                v@.skip(i - cur@.len()),
            ),
        decreases v.len() - i,
    {
        let c = v[i];
        if c == '\n' {
            let ghost start = i - cur@.len();
            let ghost s = v@.skip(start);
            let ghost k = cur@.len() as int;
            proof {
                assert(forall|j: int| 0 <= j < s.len() ==> s[j] == v@[start + j]);
                assert(s[k] == '\n');
                assert(forall|j: int| 0 <= j < k ==> s[j] == cur@[j]);
                lemma_first_newline_at(s, k);
                assert(s.len() > 0);
                assert(first_newline(s) == k && k < s.len());
            }
            let ghost line = if k > 0 && s[k - 1] == '\r' {
                s.take(k - 1)
            } else {
                s.take(k)
            };
            proof {
                assert(spec_lines(s) == seq![line] + spec_lines(s.skip(k + 1)));
                assert(s.skip(k + 1) =~= v@.skip(i + 1));
            }
            if cur.len() > 0 && cur[cur.len() - 1] == '\r' {
                proof {
                    assert(s[k - 1] == cur@[k - 1]);
                    assert(cur@.take(k - 1) =~= s.take(k - 1));
                }
                let _ = cur.pop();
                proof {
                    assert(cur@ =~= line);
                }
            } else {
                proof {
                    assert(cur@ =~= s.take(k));
                    assert(cur@ =~= line);
                }
            }
            proof {
                let pre = out@.map_values(|l: Vec<char>| l@);
                assert((out@.push(cur)).map_values(|l: Vec<char>| l@) =~= pre.push(cur@));
                assert(pre.push(line) + spec_lines(v@.skip(i + 1)) =~= pre + (seq![line]
                    + spec_lines(v@.skip(i + 1))));
            }
            out.push(cur);
            cur = Vec::new();
            proof {
                assert(cur@ =~= v@.subrange(i + 1, i + 1));
            }
        } else {
            proof {
                assert(v@.subrange(i - cur@.len(), i + 1) =~= cur@.push(v@[i as int]));
            }
            cur.push(c);
        }
        i = i + 1;
    }
    if cur.len() > 0 {
        let ghost start = i - cur@.len();
        let ghost s = v@.skip(start);
        proof {
            assert(forall|j: int| 0 <= j < s.len() ==> s[j] == cur@[j]);
            lemma_first_newline_at(s, s.len() as int);
            assert(spec_lines(s) == seq![s]);
            assert(cur@ =~= s);
            let pre = out@.map_values(|l: Vec<char>| l@);
            assert((out@.push(cur)).map_values(|l: Vec<char>| l@) =~= pre.push(cur@));
            assert(pre.push(s) =~= pre + seq![s]);
        }
        out.push(cur);
    } else {
        proof {
            assert(v@.skip(i as int).len() == 0);
            assert(spec_lines(v@.skip(i as int)) =~= Seq::<Seq<char>>::empty());
            assert(out@.map_values(|l: Vec<char>| l@) + Seq::<Seq<char>>::empty() =~= out@.map_values(
                |l: Vec<char>| l@,
            ));
        }
    }
    out
}

/// The number of lines in `content`, counted as `str::lines` splits them.
pub fn count_lines(content: &str) -> (r: usize)
    ensures
        r == spec_lines(content@).len(),
{
    let v = chars_of(content);
    let ls = split_lines(&v);
    proof {
        assert(ls@.map_values(|l: Vec<char>| l@).len() == ls@.len());
    }
    ls.len()
}

proof fn lemma_joined_step(s: Seq<Seq<char>>, i: int)
    requires
        0 < i < s.len(),
    ensures
        spec_joined(s.take(i + 1)) == spec_joined(s.take(i)) + seq!['\n'] + s[i],
    decreases i,
{
    let t = s.take(i + 1);
    assert(t.len() >= 2);
    assert(spec_joined(t) == t[0] + seq!['\n'] + spec_joined(t.drop_first()));
    if i == 1 {
        assert(t.drop_first() =~= seq![s[1]]);
        assert(spec_joined(t.drop_first()) == s[1]);
        assert(s.take(1) =~= seq![s[0]]);
        assert(spec_joined(s.take(1)) == s[0]);
    } else {
        let d = s.drop_first();
        assert(t.drop_first() =~= d.take(i));
        lemma_joined_step(d, i - 1);
        assert(d.take(i - 1 + 1) =~= d.take(i));
        assert(spec_joined(d.take(i)) == spec_joined(d.take(i - 1)) + seq!['\n'] + d[i - 1]);
        assert(s.take(i).drop_first() =~= d.take(i - 1));
        assert(s.take(i).len() >= 2);
        assert(spec_joined(s.take(i)) == s[0] + seq!['\n'] + spec_joined(d.take(i - 1)));
        assert(t[0] + seq!['\n'] + (spec_joined(d.take(i - 1)) + seq!['\n'] + d[i - 1]) =~= (s[0]
            + seq!['\n'] + spec_joined(d.take(i - 1))) + seq!['\n'] + s[i]);
    }
}

/// The content under a line limit: the first `max_lines` lines joined by
/// newline, and — exactly when lines were dropped — the truncation marker.
pub fn apply_line_limit(content: &str, max_lines: usize) -> (r: String)
    ensures
        r@ == spec_line_limited(content@, max_lines as int),
{
    let v = chars_of(content);
    let ls = split_lines(&v);
    let ghost lsv = ls@.map_values(|l: Vec<char>| l@);
    let keep: usize = if max_lines < ls.len() {
        max_lines
    } else {
        ls.len()
    };
    let mut out: Vec<char> = Vec::new();
    let mut i: usize = 0;
    proof {
        assert(lsv.take(0) =~= Seq::<Seq<char>>::empty());
    }
    while i < keep
        invariant
            i <= keep <= ls@.len(),
            lsv == ls@.map_values(|l: Vec<char>| l@),
            lsv == spec_lines(content@),
            out@ == spec_joined(lsv.take(i as int)),
        decreases keep - i,
    {
        if i > 0 {
            out.push('\n');
            proof {
                lemma_joined_step(lsv, i as int);
            }
        } else {
            proof {
                assert(lsv.take(1) =~= seq![lsv[0]]);
            }
        }
        push_chars(&mut out, &ls[i]);
        proof {
            assert(lsv[i as int] == ls@[i as int]@);
            if i > 0 {
                assert(out@ =~= spec_joined(lsv.take(i + 1)));
            } else {
                assert(out@ =~= lsv[0]);
            }
        }
        i = i + 1;
    }
    if ls.len() > max_lines {
        push_str_chars(&mut out, "\n... (truncated)");
        proof {
            assert(out@ =~= spec_joined(lsv.take(keep as int)) + truncation_marker());
        }
    } else {
        proof {
            assert(lsv.take(keep as int) =~= lsv);
        }
    }
    string_of(&out)
}

/// The enriched header line: path, line count, formatted size and modified
/// date, exactly as the metadata header spells them.
pub open spec fn spec_metadata_header(
    path: Seq<char>,
    line_count: int,
    size: int,
    date: Seq<char>,
) -> Seq<char> {
    path + " ("@ + dec_digits(line_count) + " lines, "@ + spec_format_file_size(size)
        + ", modified: "@ + date + ")"@
}

/// The header line of a file's block: the path alone, or — when metadata was
/// requested and could be gathered — the enriched form.
pub open spec fn spec_header(
    path: Seq<char>,
    add_metadata: bool,
    meta: Option<FileMetadataSnapshot>,
) -> Seq<char> {
    match meta {
        Some(m) => if add_metadata {
            spec_metadata_header(path, m.line_count as int, m.size as int, m.modified_date@)
        } else {
            path
        },
        None => path,
    }
}

/// The four-part unit emitted per included file: header line, `---` line,
/// content followed by a newline, `---` line.
pub open spec fn spec_block(header: Seq<char>, body: Seq<char>) -> Seq<char> {
    header + "\n---\n"@ + body + "\n---\n"@
}

/// The exact text appended to the output for one file, from its displayed
/// path, its content, its optional metadata snapshot and the configuration.
pub open spec fn spec_rendered_block(
    path: Seq<char>,
    content: Seq<char>,
    add_metadata: bool,
    meta: Option<FileMetadataSnapshot>,
    max_lines: Option<usize>,
) -> Seq<char> {
    spec_block(spec_header(path, add_metadata, meta), spec_processed_content(content, max_lines))
}

/// Renders the block for one file. The caller has already read the content
/// and, when metadata was requested and could be gathered, built the
/// snapshot; a missing snapshot falls back to the plain path header.
pub fn render_file_block(
    path_display: &str,
    content: &str,
    meta: &Option<FileMetadataSnapshot>,
    config: &RunConfiguration,
) -> (r: String)
    ensures
        r@ == spec_rendered_block(
            path_display@,
            content@,
            config.add_metadata,
            *meta,
            config.max_lines,
        ),
{
    let mut out: Vec<char> = Vec::new();
    if config.add_metadata {
        match meta {
            Some(m) => {
                push_str_chars(&mut out, path_display);
                push_str_chars(&mut out, " (");
                push_decimal(&mut out, m.line_count as u64);
                push_str_chars(&mut out, " lines, ");
                let size_text = format_file_size(m.size);
                push_str_chars(&mut out, size_text.as_str());
                push_str_chars(&mut out, ", modified: ");
                push_str_chars(&mut out, m.modified_date.as_str());
                push_str_chars(&mut out, ")");
            },
            None => {
                push_str_chars(&mut out, path_display);
            },
        }
    } else {
        push_str_chars(&mut out, path_display);
    }
    proof {
        assert(out@ =~= spec_header(path_display@, config.add_metadata, *meta));
    }
    let ghost header = out@;
    push_str_chars(&mut out, "\n---\n");
    match config.max_lines {
        Some(n) => {
            let limited = apply_line_limit(content, n);
            push_str_chars(&mut out, limited.as_str());
        },
        None => {
            push_str_chars(&mut out, content);
        },
    }
    push_str_chars(&mut out, "\n---\n");
    proof {
        assert(out@ =~= spec_block(
            header,
            spec_processed_content(content@, config.max_lines),
        ));
    }
    string_of(&out)
}

/// Law (idempotence): the rendered block is a function of the displayed
/// path, the content, the snapshot and the configuration alone, so rendering
/// the same file twice under an identical configuration yields byte-identical
/// blocks.
pub proof fn lemma_render_idempotent(
    path: Seq<char>,
    content: Seq<char>,
    add_metadata: bool,
    meta: Option<FileMetadataSnapshot>,
    max_lines: Option<usize>,
    r1: Seq<char>,
    r2: Seq<char>,
)
    requires
        r1 == spec_rendered_block(path, content, add_metadata, meta, max_lines),
        r2 == spec_rendered_block(path, content, add_metadata, meta, max_lines),
    ensures
        r1 == r2,
{
}

/// The diagnostic line for a file whose bytes are not valid text.
pub open spec fn spec_undecodable_warning(path: Seq<char>) -> Seq<char> {
    "Warning: Skipping file "@ + path + " due to UnicodeDecodeError"@
}

/// The diagnostic line emitted when a file's bytes are not valid text.
pub fn undecodable_warning(path_display: &str) -> (r: String)
    ensures
        r@ == spec_undecodable_warning(path_display@),
{
    let mut out = chars_of("Warning: Skipping file ");
    push_str_chars(&mut out, path_display);
    push_str_chars(&mut out, " due to UnicodeDecodeError");
    proof {
        assert(out@ =~= spec_undecodable_warning(path_display@));
    }
    string_of(&out)
}

/// The diagnostic line for an oversized file: its formatted actual size
/// against the limit exactly as the user wrote it.
pub open spec fn spec_oversize_warning(
    path: Seq<char>,
    file_size: int,
    limit_text: Seq<char>,
) -> Seq<char> {
    "Warning: Skipping file "@ + path + " due to size limit ("@ + spec_format_file_size(file_size)
        + " > "@ + limit_text + ")"@
}

/// The diagnostic line emitted when a file exceeds the configured size limit.
pub fn oversize_warning(path_display: &str, file_size: u64, limit_text: &str) -> (r: String)
    ensures
        r@ == spec_oversize_warning(path_display@, file_size as int, limit_text@),
{
    let mut out = chars_of("Warning: Skipping file ");
    push_str_chars(&mut out, path_display);
    push_str_chars(&mut out, " due to size limit (");
    let size_text = format_file_size(file_size);
    push_str_chars(&mut out, size_text.as_str());
    push_str_chars(&mut out, " > ");
    push_str_chars(&mut out, limit_text);
    push_str_chars(&mut out, ")");
    proof {
        assert(out@ =~= spec_oversize_warning(path_display@, file_size as int, limit_text@));
    }
    string_of(&out)
}

/// The diagnostic line for a top-level input path that does not exist; the
/// run stops immediately after emitting it.
pub fn missing_path_message(path_display: &str) -> (r: String)
    ensures
        r@ == "Error: Path does not exist: "@ + path_display@,
{
    let mut out = chars_of("Error: Path does not exist: ");
    push_str_chars(&mut out, path_display);
    string_of(&out)
}

/// What the size limit decides for a file before its content is read.
pub enum SizeCheck {
    /// No limit, or the file is within it: go on and read the content.
    Proceed,
    /// The file exceeds the limit; the payload is the diagnostic line.
    SkipOversized(String),
    /// The configured limit itself does not parse; the payload is the fatal
    /// error text, and the run stops.
    InvalidLimit(String),
}

/// The decision made from a file's size before its content is opened: the
/// configured limit is re-parsed each time, an unparseable limit is a fatal
/// configuration error, and an oversized file is skipped with a diagnostic.
pub fn check_file_size(path_display: &str, file_size: u64, max_file_size: &Option<String>) -> (r:
    SizeCheck)
    ensures
        ({
            match *max_file_size {
                Some(s) => match spec_parse_file_size(s@) {
                    Some(limit) => if file_size > limit {
                        r matches SizeCheck::SkipOversized(w) && w@ == spec_oversize_warning(
                            path_display@,
                            file_size as int,
                            s@,
                        )
                    } else {
                        r is Proceed
                    },
                    None => r matches SizeCheck::InvalidLimit(m) && m@
                        == spec_invalid_size_message(s@),
                },
                None => r is Proceed,
            }
        }),
{
    match max_file_size {
        None => SizeCheck::Proceed,
        Some(s) => match parse_file_size(s.as_str()) {
            Err(m) => SizeCheck::InvalidLimit(m),
            Ok(limit) => if file_size > limit {
                SizeCheck::SkipOversized(oversize_warning(path_display, file_size, s.as_str()))
            } else {
                SizeCheck::Proceed
            },
        },
    }
}

} // verus!
