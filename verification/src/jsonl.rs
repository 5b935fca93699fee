//! The JSON Lines framing of the state files: one record per line, blank
//! lines skipped; and the name of the temporary file a rewrite goes through.
use vstd::prelude::*;
use crate::text::{from_chars, is_space, opt_seq, to_chars, trim, trim_bounds};

verus! {

/// The pieces of `s` between newline characters (one more than there are
/// newlines).
pub open spec fn split_newlines(s: Seq<char>) -> Seq<Seq<char>>
    decreases s.len(),
{
    if s.len() == 0 {
        seq![Seq::empty()]
    } else {
        let p = split_newlines(s.drop_last());
        if s.last() == '\n' {
            p.push(Seq::empty())
        } else {
            p.update(p.len() - 1, p.last().push(s.last()))
        }
    }
}

/// A line without the carriage return of a CRLF ending.
pub open spec fn strip_cr(line: Seq<char>) -> Seq<char> {
    if line.len() > 0 && line.last() == '\r' {
        line.drop_last()
    } else {
        line
    }
}

/// The lines of a text as `BufRead::lines` yields them: split at newlines,
/// without a trailing CR, and no empty line after a final newline.
pub open spec fn text_lines(s: Seq<char>) -> Seq<Seq<char>> {
    let p = split_newlines(s);
    let q = if p.last().len() == 0 {
        p.drop_last()
    } else {
        p
    };
    q.map_values(|l: Seq<char>| strip_cr(l))
}

/// A line that holds a record, with its number (counted from 1).
pub struct JsonlLine {
    pub number: usize,
    pub text: String,
}

pub struct LineView {
    pub number: int,
    pub text: Seq<char>,
}

impl View for JsonlLine {
    type V = LineView;

    open spec fn view(&self) -> LineView {
        LineView { number: self.number as int, text: self.text@ }
    }
}

/// The numbered lines from `from` on that hold something besides white space.
pub open spec fn records_from(lines: Seq<Seq<char>>, from: int) -> Seq<LineView>
    decreases lines.len() - from,
{
    if from >= lines.len() || from < 0 {
        Seq::empty()
    } else {
        let rest = records_from(lines, from + 1);
        if trim(lines[from]).len() == 0 {
            rest
        } else {
            seq![LineView { number: from + 1, text: lines[from] }] + rest
        }
    }
}

/// The records of a state file: its non-blank lines with their numbers.
pub open spec fn jsonl_records(s: Seq<char>) -> Seq<LineView> {
    records_from(text_lines(s), 0)
}

pub open spec fn lines_view(v: Seq<JsonlLine>) -> Seq<LineView> {
    v.map_values(|l: JsonlLine| l@)
}

proof fn lemma_split_nonempty(s: Seq<char>)
    ensures
        split_newlines(s).len() >= 1,
    decreases s.len(),
{
    if s.len() > 0 {
        lemma_split_nonempty(s.drop_last());
    }
}

/// After the pieces of `done`, the pieces of `done + rest` continue with the
/// last piece of `done` extended.
proof fn lemma_split_step(s: Seq<char>, i: int)
    requires
        0 <= i < s.len(),
    ensures
        split_newlines(s.take(i + 1)) == if s[i] == '\n' {
            split_newlines(s.take(i)).push(Seq::empty())
        } else {
            let p = split_newlines(s.take(i));
            p.update(p.len() - 1, p.last().push(s[i]))
        },
{
    let t = s.take(i + 1);
    assert(t.drop_last() =~= s.take(i));
    assert(t.last() == s[i]);
}

proof fn lemma_records_push(lines: Seq<Seq<char>>, from: int, line: Seq<char>)
    requires
        0 <= from <= lines.len(),
    ensures
        records_from(lines.push(line), from) == records_from(lines, from) + if trim(line).len()
            == 0 {
            Seq::<LineView>::empty()
        } else {
            seq![LineView { number: lines.len() + 1int, text: line }]
        },
    decreases lines.len() - from,
{
    let ext = lines.push(line);
    if from < lines.len() {
        lemma_records_push(lines, from + 1, line);
        assert(ext[from] == lines[from]);
        if trim(lines[from]).len() == 0 {
        } else {
            assert(seq![LineView { number: from + 1, text: lines[from] }] + (records_from(
                lines,
                from + 1,
            ) + if trim(line).len() == 0 {
                Seq::<LineView>::empty()
            } else {
                seq![LineView { number: lines.len() + 1int, text: line }]
            }) =~= (seq![LineView { number: from + 1, text: lines[from] }] + records_from(
                lines,
                from + 1,
            )) + if trim(line).len() == 0 {
                Seq::<LineView>::empty()
            } else {
                seq![LineView { number: lines.len() + 1int, text: line }]
            });
        }
    } else {
        assert(ext[from] == line);
        assert(records_from(ext, from + 1) == Seq::<LineView>::empty());
        assert(records_from(lines, from) == Seq::<LineView>::empty());
        if trim(line).len() == 0 {
            assert(records_from(ext, from) =~= Seq::<LineView>::empty());
        } else {
            assert(records_from(ext, from) =~= seq![LineView { number: from + 1, text: line }]);
        }
    }
}

fn is_blank(line: &Vec<char>) -> (r: bool)
    ensures
        r == (trim(line@).len() == 0),
{
    let (a, b) = trim_bounds(line);
    a == b
}

/// Appends the record of a finished line, if it is not blank.
fn finish_line(out: &mut Vec<JsonlLine>, line: &Vec<char>, number: usize)
    ensures
        lines_view(final(out)@) == lines_view(old(out)@) + if trim(strip_cr(line@)).len() == 0 {
            Seq::<LineView>::empty()
        } else {
            seq![LineView { number: number as int, text: strip_cr(line@) }]
        },
{
    let mut text = line.clone();
    assert(text@ =~= line@);
    let n = text.len();
    if n > 0 && text[n - 1] == '\r' {
        text.pop();
        assert(line@.last() == line@[n - 1]);
        assert(text@ =~= strip_cr(line@));
    } else {
        if n > 0 {
            assert(line@.last() == line@[n - 1]);
        }
        assert(text@ =~= strip_cr(line@));
    }
    if !is_blank(&text) {
        let ghost before = lines_view(out@);
        out.push(JsonlLine { number, text: from_chars(text.as_slice()) });
        assert(lines_view(out@) =~= before.push(LineView { number: number as int, text: strip_cr(line@) }));
    } else {
        assert(lines_view(out@) =~= lines_view(old(out)@) + Seq::<LineView>::empty());
    }
}

/// Splits the contents of a state file into its records.
pub fn parse_jsonl_lines(contents: &str) -> (r: Vec<JsonlLine>)
    requires
        contents@.len() < usize::MAX,
    ensures
        lines_view(r@) == jsonl_records(contents@),
{
    let chars = to_chars(contents);
    let n = chars.len();
    let mut out: Vec<JsonlLine> = Vec::new();
    let mut current: Vec<char> = Vec::new();
    let mut finished: usize = 0;
    let mut i: usize = 0;
    assert(chars@.take(0) =~= Seq::<char>::empty());
    while i < n
        invariant
            i <= n,
            n == chars@.len(),
            n < usize::MAX,
            chars@ == contents@,
            split_newlines(chars@.take(i as int)).len() == finished + 1,
            finished <= i,
            current@ == split_newlines(chars@.take(i as int)).last(),
            lines_view(out@) == records_from(
                split_newlines(chars@.take(i as int)).drop_last().map_values(
                    |l: Seq<char>| strip_cr(l),
                ),
                0,
            ),
        decreases n - i,
    {
        let c = chars[i];
        let ghost p = split_newlines(chars@.take(i as int));
        let ghost done = p.drop_last().map_values(|l: Seq<char>| strip_cr(l));
        proof {
            lemma_split_step(chars@, i as int);
        }
        if c == '\n' {
            finish_line(&mut out, &current, finished + 1);
            proof {
                let q = p.push(Seq::empty());
                assert(q.drop_last() =~= p);
                assert(p.drop_last().push(p.last()) =~= p);
                assert(q.drop_last().map_values(|l: Seq<char>| strip_cr(l)) =~= done.push(
                    strip_cr(current@),
                ));
                assert(done.len() == finished);
                lemma_records_push(done, 0, strip_cr(current@));
            }
            current = Vec::new();
            finished = finished + 1;
            assert(current@ =~= split_newlines(chars@.take(i + 1)).last());
        } else {
            current.push(c);
            proof {
                let q = p.update(p.len() - 1, p.last().push(c));
                assert(q.drop_last() =~= p.drop_last());
            }
        }
        i = i + 1;
    }
    assert(chars@.take(n as int) =~= chars@);
    proof {
        let p = split_newlines(chars@);
        let done = p.drop_last().map_values(|l: Seq<char>| strip_cr(l));
        if p.last().len() > 0 {
            assert(p.drop_last().push(p.last()) =~= p);
            assert(p.map_values(|l: Seq<char>| strip_cr(l)) =~= done.push(strip_cr(p.last())));
            lemma_records_push(done, 0, strip_cr(p.last()));
        }
    }
    if current.len() > 0 {
        finish_line(&mut out, &current, finished + 1);
    }
    out
}

/// The contents of a state file that holds the given records, one per line.
pub open spec fn jsonl_text(records: Seq<Seq<char>>) -> Seq<char>
    decreases records.len(),
{
    if records.len() == 0 {
        Seq::empty()
    } else {
        jsonl_text(records.drop_last()) + records.last() + seq!['\n']
    }
}

/// Writes records one per line, each ended by a newline.
pub fn format_jsonl(records: &Vec<String>) -> (r: String)
    ensures
        r@ == jsonl_text(records@.map_values(|s: String| s@)),
{
    let ghost views = records@.map_values(|s: String| s@);
    let mut out: Vec<char> = Vec::new();
    let n = records.len();
    let mut i: usize = 0;
    while i < n
        invariant
            i <= n,
            n == records@.len(),
            views == records@.map_values(|s: String| s@),
            out@ == jsonl_text(views.take(i as int)),
        decreases n - i,
    {
        crate::text::push_str(&mut out, records[i].as_str());
        out.push('\n');
        proof {
            let t = views.take(i + 1);
            assert(t.drop_last() =~= views.take(i as int));
            assert(t.last() == records@[i as int]@);
        }
        i = i + 1;
    }
    assert(views.take(n as int) =~= views);
    from_chars(out.as_slice())
}

/// A record that fits on one line of a state file: no newline in it, no
/// carriage return at its end, and something besides white space.
pub open spec fn single_line(record: Seq<char>) -> bool {
    &&& !record.contains('\n')
    &&& !(record.len() > 0 && record.last() == '\r')
    &&& trim(record).len() > 0
}

proof fn lemma_split_append_line(s: Seq<char>, line: Seq<char>)
    requires
        !line.contains('\n'),
    ensures
        split_newlines(s + line) == split_newlines(s).update(
            split_newlines(s).len() - 1,
            split_newlines(s).last() + line,
        ),
    decreases line.len(),
{
    lemma_split_nonempty(s);
    let p = split_newlines(s);
    if line.len() == 0 {
        assert(s + line =~= s);
        assert(p.last() + line =~= p.last());
        assert(p.update(p.len() - 1, p.last()) =~= p);
    } else {
        let init = line.drop_last();
        assert(!init.contains('\n')) by {
            if init.contains('\n') {
                let k = choose|k: int| 0 <= k < init.len() && init[k] == '\n';
                assert(line[k] == '\n');
            }
        }
        lemma_split_append_line(s, init);
        let whole = s + line;
        assert(whole.drop_last() =~= s + init);
        assert(whole.last() == line.last());
        assert(line.last() != '\n') by {
            assert(line[line.len() - 1] == line.last());
        }
        let q = split_newlines(s + init);
        assert(q.last() == p.last() + init);
        assert((p.last() + init).push(line.last()) =~= p.last() + line);
        assert(q.update(q.len() - 1, q.last().push(line.last())) =~= p.update(
            p.len() - 1,
            p.last() + line,
        ));
    }
}

proof fn lemma_split_jsonl(records: Seq<Seq<char>>)
    requires
        forall|k: int| 0 <= k < records.len() ==> !(#[trigger] records[k]).contains('\n'),
    ensures
        split_newlines(jsonl_text(records)) == records.push(Seq::empty()),
    decreases records.len(),
{
    if records.len() == 0 {
        assert(split_newlines(Seq::empty()) =~= seq![Seq::<char>::empty()]);
        assert(records.push(Seq::empty()) =~= seq![Seq::<char>::empty()]);
    } else {
        let init = records.drop_last();
        let line = records.last();
        assert(!line.contains('\n')) by {
            assert(records[records.len() - 1] == line);
        }
        assert forall|k: int| 0 <= k < init.len() implies !(#[trigger] init[k]).contains('\n') by {
            assert(init[k] == records[k]);
        }
        lemma_split_jsonl(init);
        let before = jsonl_text(init);
        lemma_split_append_line(before, line);
        let text = jsonl_text(records);
        assert(text == (before + line).push('\n'));
        assert(text.drop_last() =~= before + line);
        let p = split_newlines(before);
        assert(p.update(p.len() - 1, p.last() + line) =~= records) by {
            assert(p.last() =~= Seq::<char>::empty());
            assert(Seq::<char>::empty() + line =~= line);
        }
        assert(split_newlines(text) == split_newlines(text.drop_last()).push(Seq::empty()));
    }
}

proof fn lemma_records_of_lines(lines: Seq<Seq<char>>, from: int)
    requires
        0 <= from <= lines.len(),
        forall|k: int| 0 <= k < lines.len() ==> trim(#[trigger] lines[k]).len() > 0,
    ensures
        records_from(lines, from) == Seq::new(
            (lines.len() - from) as nat,
            |k: int| LineView { number: from + k + 1, text: lines[from + k] },
        ),
    decreases lines.len() - from,
{
    if from < lines.len() {
        lemma_records_of_lines(lines, from + 1);
        assert(trim(lines[from]).len() > 0);
        assert(records_from(lines, from) =~= Seq::new(
            (lines.len() - from) as nat,
            |k: int| LineView { number: from + k + 1, text: lines[from + k] },
        ));
    } else {
        assert(records_from(lines, from) =~= Seq::<LineView>::empty());
    }
}

/// Reading back what `format_jsonl` wrote gives the records, in order, on
/// lines numbered from 1, as long as each record fits on one line.
pub proof fn lemma_records_read_back(records: Seq<Seq<char>>)
    requires
        forall|k: int| 0 <= k < records.len() ==> single_line(#[trigger] records[k]),
    ensures
        jsonl_records(jsonl_text(records)) == Seq::new(
            records.len(),
            |k: int| LineView { number: k + 1, text: records[k] },
        ),
{
    assert forall|k: int| 0 <= k < records.len() implies !(#[trigger] records[k]).contains('\n') by {
        assert(single_line(records[k]));
    }
    lemma_split_jsonl(records);
    let p = split_newlines(jsonl_text(records));
    assert(p.drop_last() =~= records);
    assert(records.map_values(|l: Seq<char>| strip_cr(l)) =~= records) by {
        assert forall|k: int| 0 <= k < records.len() implies strip_cr(records[k]) == records[k] by {
            assert(single_line(records[k]));
        }
    }
    assert(text_lines(jsonl_text(records)) == records);
    assert forall|k: int| 0 <= k < records.len() implies trim(#[trigger] records[k]).len() > 0 by {
        assert(single_line(records[k]));
    }
    lemma_records_of_lines(records, 0);
    assert(Seq::new((records.len() - 0) as nat, |k: int| LineView { number: 0 + k + 1, text: records[0 + k] })
        =~= Seq::new(records.len(), |k: int| LineView { number: k + 1, text: records[k] }));
}

/// The last component of a path, as `Path::file_name` gives it.
pub uninterp spec fn path_file_name(path: Seq<char>) -> Option<Seq<char>>;

/// The path with its last component replaced, as `Path::with_file_name` gives it.
pub uninterp spec fn path_with_file_name(path: Seq<char>, name: Seq<char>) -> Seq<char>;

/// `Path::file_name`: the final component of the path, if it is a normal
/// component (not `..`, not the root, not empty).
#[verifier::external_body]
fn file_name(path: &str) -> (r: Option<String>)
    ensures
        opt_seq(r) == path_file_name(path@),
{
    match std::path::Path::new(path).file_name() {
        Some(name) => Some(name.to_string_lossy().into_owned()),
        None => None,
    }
}

/// `Path::with_file_name`: the path with its final component replaced by
/// `name`.
#[verifier::external_body]
fn with_file_name(path: &str, name: &str) -> (r: String)
    ensures
        r@ == path_with_file_name(path@, name@),
{
    std::path::Path::new(path).with_file_name(name).to_string_lossy().into_owned()
}

/// A path has no file name to derive a temporary file from.
#[derive(Debug, Clone, Copy, PartialEq, Eq)]
pub struct NoFileName;

/// The temporary file a rewrite of `path` writes first: the same directory,
/// the file name with `.tmp` appended.
pub fn temp_path(path: &str) -> (r: Result<String, NoFileName>)
    ensures
        match path_file_name(path@) {
            Some(name) => r matches Ok(p) && p@ == path_with_file_name(path@, name + ".tmp"@),
            None => r is Err,
        },
{
    proof {
        reveal_strlit(".tmp");
    }
    match file_name(path) {
        Some(name) => {
            let mut chars = to_chars(name.as_str());
            crate::text::push_str(&mut chars, ".tmp");
            let tmp = from_chars(chars.as_slice());
            Ok(with_file_name(path, tmp.as_str()))
        },
        None => Err(NoFileName),
    }
}

} // verus!
