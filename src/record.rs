//! Records of annotations over a set of files, and their order by priority.
use vstd::prelude::*;
use crate::annotation::{annotation_of_line, line_annotation};

verus! {

/// One annotation found in a file.
#[derive(Clone, Debug)]
pub struct TodoRecord {
    /// The root path that was scanned.
    pub file_path: String,
    /// The name of the file that holds the annotation.
    pub file_name: String,
    /// The 1-based number of the line in that file.
    pub line_number: usize,
    /// The annotation text, with any priority field cut out.
    pub comment_text: String,
    /// The priority, 0 where none is given.
    pub priority: u8,
}

/// The mathematical model of a [`TodoRecord`].
pub struct TodoView {
    pub file_path: Seq<char>,
    pub file_name: Seq<char>,
    pub line_number: nat,
    pub comment_text: Seq<char>,
    pub priority: u8,
}

impl View for TodoRecord {
    type V = TodoView;

    open spec fn view(&self) -> TodoView {
        TodoView {
            file_path: self.file_path@,
            file_name: self.file_name@,
            line_number: self.line_number as nat,
            comment_text: self.comment_text@,
            priority: self.priority,
        }
    }
}

/// A file to scan: its name and its lines, without line terminators.
#[derive(Clone, Debug)]
pub struct SourceFile {
    pub name: String,
    pub lines: Vec<String>,
}

/// The mathematical model of a [`SourceFile`].
pub struct SourceFileView {
    pub name: Seq<char>,
    pub lines: Seq<Seq<char>>,
}

impl View for SourceFile {
    type V = SourceFileView;

    open spec fn view(&self) -> SourceFileView {
        SourceFileView { name: self.name@, lines: self.lines@.map_values(|l: String| l@) }
    }
}

/// The models of a sequence of records.
pub open spec fn views(s: Seq<TodoRecord>) -> Seq<TodoView> {
    s.map_values(|t: TodoRecord| t@)
}

/// The models of a sequence of files.
pub open spec fn file_views(s: Seq<SourceFile>) -> Seq<SourceFileView> {
    s.map_values(|f: SourceFile| f@)
}

/// The record that line `line` yields as line number `number` of file
/// `name` under root `path`.
pub open spec fn line_record(path: Seq<char>, name: Seq<char>, number: nat, line: Seq<char>) -> Option<TodoView> {
    match line_annotation(line) {
        Some(a) => Some(
            TodoView {
                file_path: path,
                file_name: name,
                line_number: number,
                comment_text: a.0,
                priority: a.1,
            },
        ),
        None => None,
    }
}

/// The records of the first `k` lines of a file, in line order.
pub open spec fn lines_records(path: Seq<char>, name: Seq<char>, lines: Seq<Seq<char>>, k: nat) -> Seq<TodoView>
    decreases k,
{
    if k == 0 {
        seq![]
    } else {
        let prior = lines_records(path, name, lines, (k - 1) as nat);
        match line_record(path, name, k, lines[k - 1]) {
            Some(t) => prior.push(t),
            None => prior,
        }
    }
}

/// The records of a whole file, in line order.
pub open spec fn file_records(path: Seq<char>, f: SourceFileView) -> Seq<TodoView> {
    lines_records(path, f.name, f.lines, f.lines.len())
}

/// The records of all files, file after file, and line after line within a
/// file.
pub open spec fn all_records(path: Seq<char>, files: Seq<SourceFileView>) -> Seq<TodoView>
    decreases files.len(),
{
    if files.len() == 0 {
        seq![]
    } else {
        all_records(path, files.drop_last()) + file_records(path, files.last())
    }
}

/// The record of one line, where it is in comment context and holds a closed
/// annotation.
pub fn scan_line(path: &str, name: &str, line_number: usize, line: &str) -> (r: Option<TodoRecord>)
    ensures
        r matches Some(t) ==> line_record(path@, name@, line_number as nat, line@) == Some(t@),
        r is None ==> line_record(path@, name@, line_number as nat, line@) is None,
{
    match annotation_of_line(line) {
        None => None,
        Some((text, priority)) => Some(
            TodoRecord {
                file_path: path.to_string(),
                file_name: name.to_string(),
                line_number,
                comment_text: text,
                priority,
            },
        ),
    }
}

/// Appends the records of one file to `out`.
fn collect_file(path: &str, f: &SourceFile, out: &mut Vec<TodoRecord>)
    ensures
        views(final(out)@) == views(old(out)@) + file_records(path@, f@),
{
    let ghost start = views(out@);
    let mut k: usize = 0;
    while k < f.lines.len()
        invariant
            k <= f.lines.len(),
            views(out@) == start + lines_records(path@, f.name@, f@.lines, k as nat),
        decreases f.lines.len() - k,
    {
        let r = scan_line(path, f.name.as_str(), k + 1, f.lines[k].as_str());
        let ghost before = out@;
        match r {
            Some(t) => {
                out.push(t);
                assert(views(out@) =~= views(before).push(t@));
            },
            None => {},
        }
        k = k + 1;
    }
}

/// The records of all files under root `path`, in discovery order: file
/// after file, and line after line within a file.
pub fn collect_records(path: &str, files: &Vec<SourceFile>) -> (r: Vec<TodoRecord>)
    ensures
        views(r@) == all_records(path@, file_views(files@)),
{
    let ghost fs = file_views(files@);
    let mut out: Vec<TodoRecord> = Vec::new();
    let mut k: usize = 0;
    assert(views(out@) =~= seq![]);
    while k < files.len()
        invariant
            k <= files.len(),
            fs == file_views(files@),
            views(out@) == all_records(path@, fs.take(k as int)),
        decreases files.len() - k,
    {
        collect_file(path, &files[k], &mut out);
        assert(fs.take(k + 1).drop_last() =~= fs.take(k as int));
        k = k + 1;
    }
    assert(fs.take(k as int) =~= fs);
    out
}

/// The records of `s` whose priority is `p`, in their order in `s`.
pub open spec fn with_priority(s: Seq<TodoView>, p: u8) -> Seq<TodoView>
    decreases s.len(),
{
    if s.len() == 0 {
        seq![]
    } else {
        let prior = with_priority(s.drop_last(), p);
        if s.last().priority == p {
            prior.push(s.last())
        } else {
            prior
        }
    }
}

/// The records of `s` with priority `p`, then those with `p - 1`, and so on
/// down to 0.
pub open spec fn priorities_from(s: Seq<TodoView>, p: int) -> Seq<TodoView>
    decreases p + 1,
{
    if p < 0 {
        seq![]
    } else {
        with_priority(s, p as u8) + priorities_from(s, p - 1)
    }
}

/// `s` in descending order of priority, records of equal priority in their
/// order in `s`: a stable sort.
pub open spec fn sorted_by_priority(s: Seq<TodoView>) -> Seq<TodoView> {
    priorities_from(s, 255)
}

fn copy_record(t: &TodoRecord) -> (r: TodoRecord)
    ensures
        r@ == t@,
{
    TodoRecord {
        file_path: t.file_path.clone(),
        file_name: t.file_name.clone(),
        line_number: t.line_number,
        comment_text: t.comment_text.clone(),
        priority: t.priority,
    }
}

/// Orders records by priority, highest first; records of equal priority
/// keep their order.
pub fn sort_by_priority(records: &Vec<TodoRecord>) -> (r: Vec<TodoRecord>)
    ensures
        views(r@) == sorted_by_priority(views(records@)),
{
    let ghost s = views(records@);
    let mut out: Vec<TodoRecord> = Vec::new();
    let mut p: u16 = 256;
    while p > 0
        invariant
            p <= 256,
            s == views(records@),
            sorted_by_priority(s) == views(out@) + priorities_from(s, p - 1),
        decreases p,
    {
        p = p - 1;
        let ghost mid = views(out@);
        let mut i: usize = 0;
        while i < records.len()
            invariant
                i <= records.len(),
                p < 256,
                s == views(records@),
                views(out@) == mid + with_priority(s.take(i as int), p as u8),
            decreases records.len() - i,
        {
            assert(s.take(i + 1).drop_last() =~= s.take(i as int));
            let ghost before = out@;
            if records[i].priority == p as u8 {
                out.push(copy_record(&records[i]));
                assert(views(out@) =~= views(before).push(s[i as int]));
            }
            i = i + 1;
        }
        assert(s.take(records.len() as int) =~= s);
        assert(views(out@) + priorities_from(s, p - 1) =~= mid + priorities_from(s, p as int));
    }
    assert(views(out@) + priorities_from(s, -1) =~= views(out@));
    out
}

/// The records of all files under root `path`, ordered by priority, highest
/// first, and within a priority in discovery order.
pub fn scan_files(path: &str, files: &Vec<SourceFile>) -> (r: Vec<TodoRecord>)
    ensures
        views(r@) == sorted_by_priority(all_records(path@, file_views(files@))),
{
    let found = collect_records(path, files);
    sort_by_priority(&found)
}

} // verus!
