//! Tailing of a log file: where a read starts, how the bytes read become
//! log records, and where the next read starts.

use vstd::prelude::*;
use vstd::string::StringExecFns;
use vstd::utf8::{decode_utf8, encode_scalar, encode_utf8, valid_utf8};

use crate::attributes::{extended, pairs, Attribute};
use crate::exporter::ExportError;
use crate::record::{LogEntry, Severity};
use crate::text::{is_whitespace, trim, trim_end, trim_start, trimmed, utf8_text};

verus! {

/// One past the end of the line that starts at `i` in `b`: one past the first
/// newline at or after `i`, or the end of `b` when there is none.
pub open spec fn line_end(b: Seq<u8>, i: int) -> int
    decreases b.len() - i,
{
    if i < 0 || i >= b.len() {
        b.len() as int
    } else if b[i] == 10u8 {
        i + 1
    } else {
        line_end(b, i + 1)
    }
}

/// A line that starts inside `b` ends after its start and within `b`.
pub proof fn lemma_line_end_bounds(b: Seq<u8>, i: int)
    requires
        0 <= i < b.len(),
    ensures
        i < line_end(b, i) <= b.len(),
    decreases b.len() - i,
{
    if b[i] != 10u8 {
        if i + 1 < b.len() {
            lemma_line_end_bounds(b, i + 1);
        } else {
            assert(line_end(b, i + 1) == b.len());
        }
    }
}

/// What reading `b` line by line, as `BufRead::read_line` does, yields: the
/// trimmed lines that are not blank, in order, and whether every line was
/// valid UTF-8 (reading stops at the first line that is not).
pub open spec fn read_lines(b: Seq<u8>) -> (Seq<Seq<char>>, bool)
    decreases b.len(),
{
    if b.len() == 0 {
        (Seq::empty(), true)
    } else {
        let n = line_end(b, 0);
        let line = b.subrange(0, n);
        if !valid_utf8(line) {
            (Seq::empty(), false)
        } else {
            proof {
                lemma_line_end_bounds(b, 0);
            }
            let rest = read_lines(b.subrange(n, b.len() as int));
            let t = trim(decode_utf8(line));
            (if t.len() > 0 { seq![t] + rest.0 } else { rest.0 }, rest.1)
        }
    }
}

/// Where a read resumes: at the start when the file has become shorter than
/// the stored offset (it was truncated or rotated), else at the offset.
pub open spec fn resume_point(offset: u64, file_len: u64) -> u64 {
    if file_len < offset {
        0
    } else {
        offset
    }
}

/// The record that a non-blank line `msg` of the file at `path` becomes.
pub open spec fn entry_of(msg: Seq<char>, base: Seq<Attribute>, path: Seq<char>) -> (
    Severity,
    Seq<char>,
    Seq<(Seq<char>, Seq<char>)>,
) {
    (Severity::Info, msg, pairs(base) + seq![("file"@, path)])
}

/// The records that the messages `msgs` of the file at `path` become.
pub open spec fn entries_of(msgs: Seq<Seq<char>>, base: Seq<Attribute>, path: Seq<char>) -> Seq<
    (Severity, Seq<char>, Seq<(Seq<char>, Seq<char>)>),
> {
    msgs.map_values(|m: Seq<char>| entry_of(m, base, path))
}

/// The views of a list of records.
pub open spec fn entry_views(v: Seq<LogEntry>) -> Seq<
    (Severity, Seq<char>, Seq<(Seq<char>, Seq<char>)>),
> {
    v.map_values(|e: LogEntry| e@)
}

/// The message that `read_line` reports for a line that is not UTF-8.
pub open spec fn invalid_utf8_message() -> Seq<char> {
    "stream did not contain valid UTF-8"@
}

/// The reading position in one log file, with what its records carry.
#[derive(Debug)]
pub struct LogTail {
    /// The byte offset where the next read resumes.
    pub offset: u64,
    /// The file's path, as it is displayed in the `file` attribute.
    pub path: String,
    /// The attributes that every record of this file starts with.
    pub base_attributes: Vec<Attribute>,
}

proof fn lemma_line_end_skip(s: Seq<u8>, i: int, j: int)
    requires
        0 <= i <= j <= s.len(),
        forall|k: int| i <= k < j ==> #[trigger] s[k] != 10u8,
    ensures
        line_end(s, i) == line_end(s, j),
    decreases j - i,
{
    if i < j {
        lemma_line_end_skip(s, i + 1, j);
    }
}

impl LogTail {
    /// A tail of the file at `path` whose length is now `file_len`: only
    /// what is appended from now on is read.
    pub fn new(path: String, base_attributes: Vec<Attribute>, file_len: u64) -> (t: LogTail)
        ensures
            t.offset == file_len,
            t.path == path,
            t.base_attributes == base_attributes,
    {
        LogTail { offset: file_len, path, base_attributes }
    }

    /// Moves the offset to where the next read starts, given the file's
    /// current length, and returns it.
    pub fn resume(&mut self, file_len: u64) -> (start: u64)
        ensures
            start == resume_point(old(self).offset, file_len),
            final(self).offset == start,
            final(self).path == old(self).path,
            final(self).base_attributes == old(self).base_attributes,
    {
        if file_len < self.offset {
            self.offset = 0;
        }
        self.offset
    }

    /// Turns `chunk`, the bytes from the offset to the end of the file, into
    /// records, one per non-blank line, and advances the offset past it.
    /// When a line is not UTF-8 the records before it are returned with an
    /// error, and the offset stays where it was.
    pub fn consume(&mut self, chunk: &[u8]) -> (r: (Vec<LogEntry>, Result<(), ExportError>))
        requires
            old(self).offset + chunk@.len() <= u64::MAX,
        ensures
            entry_views(r.0@) == entries_of(
                read_lines(chunk@).0,
                old(self).base_attributes@,
                old(self).path@,
            ),
            r.1 is Ok <==> read_lines(chunk@).1,
            r.1 matches Err(e) ==> e.message@ == invalid_utf8_message(),
            final(self).offset == if read_lines(chunk@).1 {
                (old(self).offset + chunk@.len()) as u64
            } else {
                old(self).offset
            },
            final(self).path == old(self).path,
            final(self).base_attributes == old(self).base_attributes,
    {
        let ghost b = chunk@;
        let len = chunk.len();
        let mut entries: Vec<LogEntry> = Vec::new();
        let ghost mut done: Seq<Seq<char>> = Seq::empty();
        let mut pos: usize = 0;
        assert(b.subrange(0, len as int) =~= b);
        while pos < len
            invariant
                len == b.len(),
                b == chunk@,
                pos <= len,
                read_lines(b).0 == done + read_lines(b.subrange(pos as int, len as int)).0,
                read_lines(b).1 == read_lines(b.subrange(pos as int, len as int)).1,
                entry_views(entries@) == entries_of(done, self.base_attributes@, self.path@),
                self.offset == old(self).offset,
                self.path == old(self).path,
                self.base_attributes == old(self).base_attributes,
            decreases len - pos,
        {
            let ghost rest = b.subrange(pos as int, len as int);
            let mut e: usize = pos;
            let mut line: Vec<u8> = Vec::new();
            while e < len && chunk[e] != 10u8
                invariant
                    len == b.len(),
                    b == chunk@,
                    pos <= e <= len,
                    line@ == b.subrange(pos as int, e as int),
                    forall|k: int| pos <= k < e ==> #[trigger] b[k] != 10u8,
                decreases len - e,
            {
                line.push(chunk[e]);
                e = e + 1;
            }
            proof {
                assert forall|k: int| 0 <= k < e - pos implies #[trigger] rest[k] != 10u8 by {
                    assert(rest[k] == b[pos + k]);
                }
                lemma_line_end_skip(rest, 0, e - pos);
            }
            if e < len {
                line.push(chunk[e]);
                e = e + 1;
                proof {
                    assert(rest[e - 1 - pos] == b[e - 1]);
                }
            }
            let ghost n = e - pos;
            proof {
                assert(line_end(rest, 0) == n);
                assert(line@ =~= rest.subrange(0, n));
                assert(rest.subrange(n, rest.len() as int) =~= b.subrange(e as int, len as int));
            }
            match utf8_text(line.as_slice()) {
                None => {
                    let message = String::from_str("stream did not contain valid UTF-8");
                    return (entries, Err(ExportError { message }));
                },
                Some(text) => {
                    let content = trimmed(text.as_str());
                    if !content.as_str().is_empty() {
                        let file = Attribute {
                            key: String::from_str("file"),
                            value: self.path.clone(),
                        };
                        let attributes = extended(&self.base_attributes, vec![file]);
                        let entry = LogEntry { severity: Severity::Info, body: content, attributes };
                        proof {
                            assert(pairs(attributes@) =~= pairs(self.base_attributes@) + seq![
                                ("file"@, self.path@),
                            ]);
                            assert(entry@ == entry_of(
                                trim(decode_utf8(line@)),
                                self.base_attributes@,
                                self.path@,
                            ));
                        }
                        let ghost prev = entries@;
                        entries.push(entry);
                        proof {
                            let t = trim(decode_utf8(line@));
                            assert(entry_views(entries@) =~= entry_views(prev).push(entry@));
                            assert(entries_of(done + seq![t], self.base_attributes@, self.path@)
                                =~= entries_of(done, self.base_attributes@, self.path@).push(
                                entry_of(t, self.base_attributes@, self.path@),
                            ));
                            assert(done + seq![t] + read_lines(b.subrange(e as int, len as int)).0
                                =~= done + (seq![t] + read_lines(
                                b.subrange(e as int, len as int),
                            ).0));
                            done = done + seq![t];
                            assert(entry_views(entries@) =~= entries_of(
                                done,
                                self.base_attributes@,
                                self.path@,
                            ));
                        }
                    }
                },
            }
            pos = e;
        }
        proof {
            assert(b.subrange(len as int, len as int) =~= Seq::<u8>::empty());
            assert(done =~= read_lines(b).0);
        }
        self.offset = self.offset + len as u64;
        (entries, Ok(()))
    }
}


proof fn lemma_line_end_prefix(a: Seq<u8>, b: Seq<u8>, i: int)
    requires
        0 <= i < a.len(),
        a.last() == 10u8,
    ensures
        line_end(a + b, i) == line_end(a, i),
    decreases a.len() - i,
{
    assert((a + b)[i] == a[i]);
    if a[i] != 10u8 {
        lemma_line_end_prefix(a, b, i + 1);
    }
}

/// Reading `a + b` line by line yields what reading `a` yields, followed by
/// what reading `b` yields when every line of `a` was valid, provided `a`
/// ends at a line end.
pub proof fn lemma_read_lines_concat(a: Seq<u8>, b: Seq<u8>)
    requires
        a.len() == 0 || a.last() == 10u8,
    ensures
        read_lines(a + b) == (
            read_lines(a).0 + if read_lines(a).1 {
                read_lines(b).0
            } else {
                Seq::empty()
            },
            read_lines(a).1 && read_lines(b).1,
        ),
    decreases a.len(),
{
    if a.len() == 0 {
        assert(a + b =~= b);
        assert(read_lines(a).0 + read_lines(b).0 =~= read_lines(b).0);
    } else {
        let ab = a + b;
        lemma_line_end_prefix(a, b, 0);
        lemma_line_end_bounds(a, 0);
        let n = line_end(a, 0);
        assert(ab.subrange(0, n) =~= a.subrange(0, n));
        let ra = a.subrange(n, a.len() as int);
        assert(ab.subrange(n, ab.len() as int) =~= ra + b);
        if valid_utf8(a.subrange(0, n)) {
            if ra.len() > 0 {
                assert(ra.last() == a.last());
            }
            lemma_read_lines_concat(ra, b);
            let t = trim(decode_utf8(a.subrange(0, n)));
            if t.len() > 0 {
                assert(seq![t] + read_lines(ra + b).0 =~= seq![t] + read_lines(ra).0 + (if read_lines(
                    ra,
                ).1 {
                    read_lines(b).0
                } else {
                    Seq::empty()
                }));
            }
        } else {
            assert(read_lines(a).0 + Seq::<Seq<char>>::empty() =~= read_lines(a).0);
        }
    }
}

/// Tailing does not depend on how appends are split into reads: when a
/// first read ends at a line end and all its lines were text, reading `a`
/// and then `b` gives the records, the status and the offset that one read
/// of `a + b` gives.
pub proof fn law_split_reads(a: Seq<u8>, b: Seq<u8>, base: Seq<Attribute>, path: Seq<char>)
    requires
        a.len() == 0 || a.last() == 10u8,
        read_lines(a).1,
    ensures
        read_lines(a + b).1 == read_lines(b).1,
        entries_of(read_lines(a + b).0, base, path) == entries_of(read_lines(a).0, base, path)
            + entries_of(read_lines(b).0, base, path),
        (a + b).len() == a.len() + b.len(),
{
    lemma_read_lines_concat(a, b);
    assert(entries_of(read_lines(a + b).0, base, path) =~= entries_of(read_lines(a).0, base, path)
        + entries_of(read_lines(b).0, base, path));
}

proof fn lemma_trim_start_shape(s: Seq<char>)
    ensures
        trim_start(s).len() > 0 ==> !is_whitespace(trim_start(s)[0]),
        trim_start(s).len() <= s.len(),
        trim_start(s) =~= s.subrange(s.len() - trim_start(s).len(), s.len() as int),
    decreases s.len(),
{
    if s.len() > 0 && is_whitespace(s[0]) {
        lemma_trim_start_shape(s.drop_first());
    }
}

proof fn lemma_trim_end_shape(s: Seq<char>)
    ensures
        trim_end(s).len() > 0 ==> !is_whitespace(trim_end(s).last()),
        trim_end(s).len() <= s.len(),
        trim_end(s) =~= s.subrange(0, trim_end(s).len() as int),
    decreases s.len(),
{
    if s.len() > 0 && is_whitespace(s.last()) {
        lemma_trim_end_shape(s.drop_last());
    }
}

/// A trimmed text that is not empty neither starts nor ends with whitespace.
pub proof fn lemma_trim_shape(s: Seq<char>)
    ensures
        trim(s).len() > 0 ==> !is_whitespace(trim(s)[0]) && !is_whitespace(trim(s).last()),
{
    lemma_trim_start_shape(s);
    lemma_trim_end_shape(trim_start(s));
    if trim(s).len() > 0 {
        assert(trim(s)[0] == trim_start(s)[0]);
    }
}

/// Every record body that tailing produces is a non-empty text that neither
/// starts nor ends with whitespace: blank lines give no record, and the line
/// break and surrounding spaces are not part of a body.
pub proof fn law_bodies_trimmed(b: Seq<u8>)
    ensures
        forall|i: int|
            0 <= i < read_lines(b).0.len() ==> {
                let m = #[trigger] read_lines(b).0[i];
                &&& m.len() > 0
                &&& !is_whitespace(m[0])
                &&& !is_whitespace(m.last())
            },
    decreases b.len(),
{
    if b.len() > 0 {
        let n = line_end(b, 0);
        lemma_line_end_bounds(b, 0);
        if valid_utf8(b.subrange(0, n)) {
            let rest = b.subrange(n, b.len() as int);
            law_bodies_trimmed(rest);
            let t = trim(decode_utf8(b.subrange(0, n)));
            lemma_trim_shape(decode_utf8(b.subrange(0, n)));
            assert forall|i: int| 0 <= i < read_lines(b).0.len() implies {
                let m = #[trigger] read_lines(b).0[i];
                &&& m.len() > 0
                &&& !is_whitespace(m[0])
                &&& !is_whitespace(m.last())
            } by {
                if t.len() > 0 {
                    if i > 0 {
                        assert(read_lines(b).0[i] == read_lines(rest).0[i - 1]);
                    } else {
                        assert(read_lines(b).0[i] == t);
                    }
                } else {
                    assert(read_lines(b).0[i] == read_lines(rest).0[i]);
                }
            }
        }
    }
}

proof fn lemma_line_end_no_newline(b: Seq<u8>, i: int, k: int)
    requires
        0 <= i <= k,
        k < line_end(b, i) - 1,
    ensures
        b[k] != 10u8,
    decreases b.len() - i,
{
    if i < b.len() && b[i] != 10u8 && i < k {
        lemma_line_end_no_newline(b, i + 1, k);
    }
}

proof fn lemma_encode_concat(x: Seq<char>, y: Seq<char>)
    ensures
        encode_utf8(x + y) == encode_utf8(x) + encode_utf8(y),
    decreases x.len(),
{
    if x.len() == 0 {
        assert(x + y =~= y);
        assert(encode_utf8(x) + encode_utf8(y) =~= encode_utf8(y));
    } else {
        assert((x + y).drop_first() =~= x.drop_first() + y);
        assert((x + y)[0] == x[0]);
        lemma_encode_concat(x.drop_first(), y);
        assert(encode_utf8(x + y) =~= encode_utf8(x) + encode_utf8(y));
    }
}

proof fn lemma_encode_len(x: Seq<char>)
    ensures
        encode_utf8(x).len() >= x.len(),
    decreases x.len(),
{
    if x.len() > 0 {
        lemma_encode_len(x.drop_first());
    }
}

proof fn lemma_encode_newline()
    ensures
        encode_scalar('\n' as u32) == seq![10u8],
{
    let v: u32 = 10;
    assert(('\n' as u32) == v);
    assert((v & 0x7F) as u8 == 10u8) by (bit_vector)
        requires
            v == 10,
    ;
    assert(encode_scalar(v) =~= seq![10u8]);
}

/// In the decoding of a line whose only line feed byte, if any, is its last
/// byte, a line feed character can only be the last character.
proof fn lemma_newline_only_last(line: Seq<u8>, j: int)
    requires
        valid_utf8(line),
        forall|k: int| 0 <= k < line.len() - 1 ==> #[trigger] line[k] != 10u8,
        0 <= j < decode_utf8(line).len(),
        decode_utf8(line)[j] == '\n',
    ensures
        j == decode_utf8(line).len() - 1,
{
    let d = decode_utf8(line);
    vstd::utf8::decode_utf8_encode_utf8(line);
    let before = d.take(j);
    let after = d.skip(j + 1);
    assert(d =~= before + seq!['\n'] + after);
    lemma_encode_concat(before + seq!['\n'], after);
    lemma_encode_concat(before, seq!['\n']);
    lemma_encode_newline();
    let nl = seq!['\n'];
    assert(nl.drop_first() =~= Seq::<char>::empty());
    assert(nl[0] == '\n');
    assert(encode_utf8(nl.drop_first()) =~= Seq::<u8>::empty());
    assert(encode_utf8(nl) =~= seq![10u8]);
    let q = encode_utf8(before).len() as int;
    assert(line =~= encode_utf8(before) + seq![10u8] + encode_utf8(after));
    assert(line[q] == 10u8);
    if j < d.len() - 1 {
        lemma_encode_len(after);
        assert(q < line.len() - 1);
    }
}

/// No record body holds a line feed: each record comes from exactly one
/// line of the file.
pub proof fn law_bodies_single_line(b: Seq<u8>)
    ensures
        forall|i: int, j: int|
            0 <= i < read_lines(b).0.len() && 0 <= j < read_lines(b).0[i].len() ==> #[trigger] read_lines(
                b,
            ).0[i][j] != '\n',
    decreases b.len(),
{
    if b.len() > 0 {
        let n = line_end(b, 0);
        lemma_line_end_bounds(b, 0);
        let line = b.subrange(0, n);
        if valid_utf8(line) {
            let rest = b.subrange(n, b.len() as int);
            law_bodies_single_line(rest);
            let d = decode_utf8(line);
            let t = trim(d);
            assert forall|k: int| 0 <= k < line.len() - 1 implies #[trigger] line[k] != 10u8 by {
                lemma_line_end_no_newline(b, 0, k);
            }
            assert forall|j: int| 0 <= j < t.len() implies #[trigger] t[j] != '\n' by {
                lemma_trim_start_shape(d);
                lemma_trim_end_shape(trim_start(d));
                lemma_trim_shape(d);
                let ts = trim_start(d);
                let a = d.len() - ts.len();
                assert(t[j] == ts[j]);
                assert(ts[j] == d[a + j]);
                if t[j] == '\n' {
                    lemma_newline_only_last(line, a + j);
                    assert(j == t.len() - 1);
                    assert(is_whitespace('\n'));
                }
            }
            assert forall|i: int, j: int|
                0 <= i < read_lines(b).0.len() && 0 <= j < read_lines(b).0[i].len() implies #[trigger] read_lines(
                b,
            ).0[i][j] != '\n' by {
                if t.len() > 0 {
                    if i > 0 {
                        assert(read_lines(b).0[i] == read_lines(rest).0[i - 1]);
                    } else {
                        assert(read_lines(b).0[i] == t);
                    }
                } else {
                    assert(read_lines(b).0[i] == read_lines(rest).0[i]);
                }
            }
        }
    }
}

/// A read never starts past the end of the file, and it starts over from the
/// beginning exactly when the file has become shorter than the stored offset.
pub proof fn law_resume_within_file(offset: u64, file_len: u64)
    ensures
        resume_point(offset, file_len) <= file_len,
        resume_point(offset, file_len) == 0 || resume_point(offset, file_len) == offset,
        (file_len < offset) ==> resume_point(offset, file_len) == 0,
        (offset <= file_len) ==> resume_point(offset, file_len) == offset,
{
}

/// While a file only grows, nothing is read twice and nothing is skipped: a
/// read that took the file up to its end `end` leaves the next read starting
/// at `end`, whatever was appended since.
pub proof fn law_growing_file_resumes_at_end(end: u64, new_len: u64)
    requires
        end <= new_len,
    ensures
        resume_point(end, new_len) == end,
{
}

/// The bytes of a file that starts as `c` and then grows by each of
/// `appends` in turn.
pub open spec fn grown(c: Seq<u8>, appends: Seq<Seq<u8>>) -> Seq<u8>
    decreases appends.len(),
{
    if appends.len() == 0 {
        c
    } else {
        grown(c, appends.drop_last()) + appends.last()
    }
}

/// A run of exports of one file: the tail is made while the file holds `c`;
/// then, for each of `appends` in turn, the file grows by it and the tail
/// exports once (it resumes against the file's length and consumes the bytes
/// from there to the end). The result is the offset after the run, the
/// records of all the exports in order, and whether every export succeeded.
pub open spec fn export_run(
    c: Seq<u8>,
    appends: Seq<Seq<u8>>,
    base: Seq<Attribute>,
    path: Seq<char>,
) -> (int, Seq<(Severity, Seq<char>, Seq<(Seq<char>, Seq<char>)>)>, bool)
    decreases appends.len(),
{
    if appends.len() == 0 {
        (c.len() as int, Seq::empty(), true)
    } else {
        let prev = export_run(c, appends.drop_last(), base, path);
        let file = grown(c, appends);
        let start = resume_point(prev.0 as u64, file.len() as u64) as int;
        let chunk = file.subrange(start, file.len() as int);
        let r = read_lines(chunk);
        (
            if r.1 {
                start + chunk.len()
            } else {
                start
            },
            prev.1 + entries_of(r.0, base, path),
            prev.2 && r.1,
        )
    }
}

/// Bytes that are empty or end at a line end.
pub open spec fn ends_at_line_end(b: Seq<u8>) -> bool {
    b.len() == 0 || b.last() == 10u8
}

proof fn lemma_grown_len(c: Seq<u8>, appends: Seq<Seq<u8>>)
    ensures
        grown(c, appends) == c + grown(Seq::empty(), appends),
    decreases appends.len(),
{
    if appends.len() == 0 {
        assert(c + Seq::<u8>::empty() =~= c);
    } else {
        lemma_grown_len(c, appends.drop_last());
        assert(c + grown(Seq::empty(), appends.drop_last()) + appends.last() =~= c + (grown(
            Seq::empty(),
            appends.drop_last(),
        ) + appends.last()));
    }
}

proof fn lemma_grown_ends_at_line_end(appends: Seq<Seq<u8>>)
    requires
        forall|i: int| 0 <= i < appends.len() ==> ends_at_line_end(#[trigger] appends[i]),
    ensures
        ends_at_line_end(grown(Seq::empty(), appends)),
    decreases appends.len(),
{
    if appends.len() > 0 {
        let dl = appends.drop_last();
        assert forall|i: int| 0 <= i < dl.len() implies ends_at_line_end(#[trigger] dl[i]) by {
            assert(dl[i] == appends[i]);
        }
        lemma_grown_ends_at_line_end(dl);
        assert(ends_at_line_end(appends[appends.len() - 1]));
    }
}

/// Tailing a file that only grows loses nothing and repeats nothing: when
/// every append but the last ends at a line end and every append is text, a
/// run of exports succeeds throughout, ends with the offset at the end of
/// the file, and has emitted, in order and once each, the records of the
/// lines appended after the tail was made, as one read of all the appended
/// bytes gives them.
pub proof fn law_growing_file(
    c: Seq<u8>,
    appends: Seq<Seq<u8>>,
    base: Seq<Attribute>,
    path: Seq<char>,
)
    requires
        grown(c, appends).len() <= u64::MAX,
        forall|i: int| 0 <= i < appends.len() - 1 ==> ends_at_line_end(#[trigger] appends[i]),
        forall|i: int| 0 <= i < appends.len() ==> #[trigger] read_lines(appends[i]).1,
    ensures
        export_run(c, appends, base, path) == (
            grown(c, appends).len() as int,
            entries_of(read_lines(grown(Seq::empty(), appends)).0, base, path),
            true,
        ),
        read_lines(grown(Seq::empty(), appends)).1,
    decreases appends.len(),
{
    lemma_grown_len(c, appends);
    if appends.len() == 0 {
        assert(grown(Seq::<u8>::empty(), appends) =~= Seq::<u8>::empty());
        assert(entries_of(Seq::empty(), base, path) =~= Seq::empty());
    } else {
        let dl = appends.drop_last();
        let last = appends.last();
        lemma_grown_len(c, dl);
        assert forall|i: int| 0 <= i < dl.len() - 1 implies ends_at_line_end(#[trigger] dl[i]) by {
            assert(dl[i] == appends[i]);
        }
        assert forall|i: int| 0 <= i < dl.len() implies #[trigger] read_lines(dl[i]).1 by {
            assert(dl[i] == appends[i]);
        }
        law_growing_file(c, dl, base, path);
        assert forall|i: int| 0 <= i < dl.len() implies ends_at_line_end(#[trigger] dl[i]) by {
            assert(dl[i] == appends[i]);
        }
        lemma_grown_ends_at_line_end(dl);
        assert(read_lines(appends[appends.len() - 1]).1);
        let before = grown(Seq::empty(), dl);
        lemma_read_lines_concat(before, last);
        let prev = export_run(c, dl, base, path);
        let file = grown(c, appends);
        assert(prev.0 == grown(c, dl).len());
        assert(file.len() == prev.0 + last.len());
        let start = resume_point(prev.0 as u64, file.len() as u64) as int;
        assert(start == prev.0);
        assert(file.subrange(start, file.len() as int) =~= last);
        assert(entries_of(read_lines(before + last).0, base, path) =~= entries_of(
            read_lines(before).0,
            base,
            path,
        ) + entries_of(read_lines(last).0, base, path));
    }
}

/// Appends may be split across exports at any line end: exporting after an
/// append `a` and again after an append `b` emits the records, reaches the
/// offset and succeeds as exporting once after appending `a + b`.
pub proof fn law_appends_split_across_exports(
    c: Seq<u8>,
    a: Seq<u8>,
    b: Seq<u8>,
    base: Seq<Attribute>,
    path: Seq<char>,
)
    requires
        ends_at_line_end(a),
        read_lines(a).1,
        read_lines(b).1,
        c.len() + a.len() + b.len() <= u64::MAX,
    ensures
        export_run(c, seq![a, b], base, path) == export_run(c, seq![a + b], base, path),
        export_run(c, seq![a + b], base, path).0 == c.len() + a.len() + b.len(),
        export_run(c, seq![a + b], base, path).2,
{
    let two = seq![a, b];
    let one = seq![a + b];
    assert(two.drop_last() =~= seq![a]);
    assert(seq![a].drop_last() =~= Seq::<Seq<u8>>::empty());
    assert(one.drop_last() =~= Seq::<Seq<u8>>::empty());
    assert(grown(c, Seq::<Seq<u8>>::empty()) == c);
    assert(grown(Seq::<u8>::empty(), Seq::<Seq<u8>>::empty()) == Seq::<u8>::empty());
    assert(seq![a].last() == a);
    assert(grown(c, seq![a]) =~= c + a);
    assert(grown(c, two) =~= c + a + b);
    assert(grown(c, one) =~= c + a + b);
    assert(grown(Seq::empty(), seq![a]) =~= a);
    assert(grown(Seq::empty(), two) =~= a + b);
    assert(grown(Seq::empty(), one) =~= a + b);
    lemma_read_lines_concat(a, b);
    assert(two[0] == a);
    law_growing_file(c, two, base, path);
    law_growing_file(c, one, base, path);
}

/// Exporting again a file that has not changed since an export that
/// succeeded emits no record, leaves the offset where it was, and succeeds.
pub proof fn law_unchanged_file_exports_nothing(
    c: Seq<u8>,
    appends: Seq<Seq<u8>>,
    base: Seq<Attribute>,
    path: Seq<char>,
)
    requires
        export_run(c, appends, base, path).2,
        export_run(c, appends, base, path).0 == grown(c, appends).len(),
        grown(c, appends).len() <= u64::MAX,
    ensures
        export_run(c, appends.push(Seq::empty()), base, path) == export_run(
            c,
            appends,
            base,
            path,
        ),
{
    let next = appends.push(Seq::<u8>::empty());
    assert(next.drop_last() =~= appends);
    assert(grown(c, next) =~= grown(c, appends));
    let file = grown(c, next);
    assert(file.subrange(file.len() as int, file.len() as int) =~= Seq::<u8>::empty());
    assert(entries_of(Seq::empty(), base, path) =~= Seq::empty());
    let prev = export_run(c, appends, base, path);
    assert(prev.1 + Seq::<(Severity, Seq<char>, Seq<(Seq<char>, Seq<char>)>)>::empty() =~= prev.1);
}

/// Every record of a tailed file is an Info record whose body is its line's
/// text and whose attributes are the base ones followed by `file` with the
/// file's path.
pub proof fn law_records_shape(msgs: Seq<Seq<char>>, base: Seq<Attribute>, path: Seq<char>)
    ensures
        entries_of(msgs, base, path).len() == msgs.len(),
        forall|i: int|
            0 <= i < msgs.len() ==> {
                let e = #[trigger] entries_of(msgs, base, path)[i];
                &&& e.0 == Severity::Info
                &&& e.1 == msgs[i]
                &&& e.2.len() == base.len() + 1
                &&& e.2.take(base.len() as int) == pairs(base)
                &&& e.2.last() == ("file"@, path)
            },
{
    assert forall|i: int| 0 <= i < msgs.len() implies {
        let e = #[trigger] entries_of(msgs, base, path)[i];
        &&& e.0 == Severity::Info
        &&& e.1 == msgs[i]
        &&& e.2.len() == base.len() + 1
        &&& e.2.take(base.len() as int) == pairs(base)
        &&& e.2.last() == ("file"@, path)
    } by {
        let e = entries_of(msgs, base, path)[i];
        assert(e.2.take(base.len() as int) =~= pairs(base));
    }
}

/// A single line (bytes with no line feed but possibly a final one) that is
/// text gives exactly one record body, its trimmed text, unless that is
/// empty; a line that is not text stops the read with nothing.
pub proof fn law_single_line(b: Seq<u8>)
    requires
        b.len() > 0,
        forall|k: int| 0 <= k < b.len() - 1 ==> #[trigger] b[k] != 10u8,
    ensures
        !valid_utf8(b) ==> read_lines(b) == (Seq::<Seq<char>>::empty(), false),
        valid_utf8(b) && trim(decode_utf8(b)).len() > 0 ==> read_lines(b) == (
            seq![trim(decode_utf8(b))],
            true,
        ),
        valid_utf8(b) && trim(decode_utf8(b)).len() == 0 ==> read_lines(b) == (
            Seq::<Seq<char>>::empty(),
            true,
        ),
{
    lemma_line_end_bounds(b, 0);
    if b.len() > 1 {
        lemma_line_end_skip(b, 0, b.len() - 1);
    }
    assert(line_end(b, b.len() as int) == b.len());
    assert(line_end(b, b.len() - 1) == b.len());
    assert(b.subrange(0, b.len() as int) =~= b);
    assert(b.subrange(b.len() as int, b.len() as int) =~= Seq::<u8>::empty());
    assert(read_lines(Seq::<u8>::empty()) == (Seq::<Seq<char>>::empty(), true));
    if valid_utf8(b) {
        let t = trim(decode_utf8(b));
        assert(seq![t] + Seq::<Seq<char>>::empty() =~= seq![t]);
    }
}

} // verus!
