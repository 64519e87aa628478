//! Text renderings of a sequence of records: a Markdown table, a JSON-like
//! object list, and TOML-like and YAML-like documents grouped by file.
use vstd::prelude::*;
use crate::record::{views, TodoRecord, TodoView};
use crate::text::{chars_of, decimal, push_chars, push_decimal};

verus! {

/// The output formats.
#[derive(PartialEq, Eq, Structural, Clone, Copy, Debug)]
pub enum OutputFormat {
    Md,
    Json,
    Yaml,
    Toml,
}

/// `c` with an ASCII capital letter made small.
pub open spec fn ascii_lower(c: char) -> char {
    if 'A' <= c && c <= 'Z' {
        ((c as u32 + 32) as u8) as char
    } else {
        c
    }
}

/// `s` equals the lower-case word `w` but for the case of ASCII letters.
pub open spec fn names_word(s: Seq<char>, w: Seq<char>) -> bool {
    s.len() == w.len() && forall|i: int| 0 <= i < s.len() ==> ascii_lower(#[trigger] s[i]) == w[i]
}

/// The format that a name denotes, in any mix of ASCII case.
pub open spec fn format_named(s: Seq<char>) -> Option<OutputFormat> {
    if names_word(s, seq!['m', 'd']) {
        Some(OutputFormat::Md)
    } else if names_word(s, seq!['j', 's', 'o', 'n']) {
        Some(OutputFormat::Json)
    } else if names_word(s, seq!['y', 'a', 'm', 'l']) {
        Some(OutputFormat::Yaml)
    } else if names_word(s, seq!['t', 'o', 'm', 'l']) {
        Some(OutputFormat::Toml)
    } else {
        None
    }
}

fn names_word_exec(s: &Vec<char>, w: &Vec<char>) -> (r: bool)
    ensures
        r == names_word(s@, w@),
{
    if s.len() != w.len() {
        return false;
    }
    let mut i: usize = 0;
    while i < s.len()
        invariant
            i <= s.len() == w.len(),
            forall|k: int| 0 <= k < i ==> ascii_lower(#[trigger] s@[k]) == w@[k],
        decreases s.len() - i,
    {
        let c = s[i];
        let lower = if 'A' <= c && c <= 'Z' {
            ((c as u32 + 32) as u8) as char
        } else {
            c
        };
        if lower != w[i] {
            return false;
        }
        i = i + 1;
    }
    true
}

/// The format that `name` denotes: `md`, `json`, `yaml` or `toml`, in any
/// mix of ASCII case; `None` for any other name.
pub fn parse_format(name: &str) -> (r: Option<OutputFormat>)
    ensures
        r == format_named(name@),
{
    let s = chars_of(name);
    let md = vec!['m', 'd'];
    let json = vec!['j', 's', 'o', 'n'];
    let yaml = vec!['y', 'a', 'm', 'l'];
    let toml = vec!['t', 'o', 'm', 'l'];
    assert(md@ =~= seq!['m', 'd']);
    assert(json@ =~= seq!['j', 's', 'o', 'n']);
    assert(yaml@ =~= seq!['y', 'a', 'm', 'l']);
    assert(toml@ =~= seq!['t', 'o', 'm', 'l']);
    if names_word_exec(&s, &md) {
        Some(OutputFormat::Md)
    } else if names_word_exec(&s, &json) {
        Some(OutputFormat::Json)
    } else if names_word_exec(&s, &yaml) {
        Some(OutputFormat::Yaml)
    } else if names_word_exec(&s, &toml) {
        Some(OutputFormat::Toml)
    } else {
        None
    }
}

/// The two header lines of the Markdown table.
pub open spec fn md_header() -> Seq<char> {
    "| File Path | File Name | Line Number | Comment | Uscore |\n"@
        + "|:----------|:---------:|:-----------:|:--------|:------|\n"@
}

/// One table row.
pub open spec fn md_row(t: TodoView) -> Seq<char> {
    "| "@ + t.file_path + " | "@ + t.file_name + " | "@ + decimal(t.line_number) + " | "@
        + t.comment_text + " | "@ + decimal(t.priority as nat) + " |\n"@
}

/// One table row per record, in order.
pub open spec fn md_rows(s: Seq<TodoView>) -> Seq<char>
    decreases s.len(),
{
    if s.len() == 0 {
        seq![]
    } else {
        md_rows(s.drop_last()) + md_row(s.last())
    }
}

/// The whole Markdown table: the header lines, then the rows.
pub open spec fn md_table(s: Seq<TodoView>) -> Seq<char> {
    md_header() + md_rows(s)
}

fn push_md_row(out: &mut String, t: &TodoRecord)
    ensures
        final(out)@ == old(out)@ + md_row(t@),
{
    out.append("| ");
    out.append(t.file_path.as_str());
    out.append(" | ");
    out.append(t.file_name.as_str());
    out.append(" | ");
    push_decimal(out, t.line_number);
    out.append(" | ");
    out.append(t.comment_text.as_str());
    out.append(" | ");
    push_decimal(out, t.priority as usize);
    out.append(" |\n");
    assert(out@ =~= old(out)@ + md_row(t@));
}

/// Appends one table row per record to `table`.
pub fn split_and_print(records: &Vec<TodoRecord>, table: &mut String)
    ensures
        final(table)@ == old(table)@ + md_rows(views(records@)),
{
    let ghost start = table@;
    let ghost s = views(records@);
    let mut i: usize = 0;
    while i < records.len()
        invariant
            i <= records.len(),
            s == views(records@),
            table@ == start + md_rows(s.take(i as int)),
        decreases records.len() - i,
    {
        push_md_row(table, &records[i]);
        assert(s.take(i + 1).drop_last() =~= s.take(i as int));
        i = i + 1;
        assert(table@ =~= start + md_rows(s.take(i as int)));
    }
    assert(s.take(i as int) =~= s);
}

/// The records as a Markdown table.
pub fn out_as_md_table(records: &Vec<TodoRecord>) -> (r: String)
    ensures
        r@ == md_table(views(records@)),
{
    let mut table = String::new();
    table.append("| File Path | File Name | Line Number | Comment | Uscore |\n");
    table.append("|:----------|:---------:|:-----------:|:--------|:------|\n");
    split_and_print(records, &mut table);
    assert(table@ =~= md_table(views(records@)));
    table
}

/// One object of the JSON-like rendering; every value is a quoted string,
/// and the object ends in a comma, the last one too.
pub open spec fn json_object(t: TodoView) -> Seq<char> {
    "    {\n"@ + "        \"file_path\":\""@ + t.file_path + "\",\n"@
        + "        \"file_name\":\""@ + t.file_name + "\",\n"@ + "        \"line_number\":\""@
        + decimal(t.line_number) + "\",\n"@ + "        \"todo_comment\":\""@ + t.comment_text
        + "\",\n"@ + "        \"uscore\":\""@ + decimal(t.priority as nat) + "\",\n"@
        + "    },\n"@
}

/// One object per record, in order.
pub open spec fn json_objects(s: Seq<TodoView>) -> Seq<char>
    decreases s.len(),
{
    if s.len() == 0 {
        seq![]
    } else {
        json_objects(s.drop_last()) + json_object(s.last())
    }
}

/// The whole JSON-like rendering: the objects between braces.
pub open spec fn json_document(s: Seq<TodoView>) -> Seq<char> {
    "{\n"@ + json_objects(s) + "}\n"@
}

fn push_json_object(out: &mut String, t: &TodoRecord)
    ensures
        final(out)@ == old(out)@ + json_object(t@),
{
    out.append("    {\n");
    out.append("        \"file_path\":\"");
    out.append(t.file_path.as_str());
    out.append("\",\n");
    out.append("        \"file_name\":\"");
    out.append(t.file_name.as_str());
    out.append("\",\n");
    out.append("        \"line_number\":\"");
    push_decimal(out, t.line_number);
    out.append("\",\n");
    out.append("        \"todo_comment\":\"");
    out.append(t.comment_text.as_str());
    out.append("\",\n");
    out.append("        \"uscore\":\"");
    push_decimal(out, t.priority as usize);
    out.append("\",\n");
    out.append("    },\n");
    assert(out@ =~= old(out)@ + json_object(t@));
}

/// The records as a JSON-like list of objects.
pub fn out_as_json_object(records: &Vec<TodoRecord>) -> (r: String)
    ensures
        r@ == json_document(views(records@)),
{
    let ghost s = views(records@);
    let mut out = String::new();
    out.append("{\n");
    let ghost start = out@;
    let mut i: usize = 0;
    while i < records.len()
        invariant
            i <= records.len(),
            s == views(records@),
            out@ == start + json_objects(s.take(i as int)),
        decreases records.len() - i,
    {
        push_json_object(&mut out, &records[i]);
        assert(s.take(i + 1).drop_last() =~= s.take(i as int));
        i = i + 1;
        assert(out@ =~= start + json_objects(s.take(i as int)));
    }
    assert(s.take(i as int) =~= s);
    out.append("}\n");
    assert(out@ =~= json_document(s));
    out
}

/// The group key of a record: its path and file name, run together.
pub open spec fn group_key(t: TodoView) -> Seq<char> {
    t.file_path + t.file_name
}

/// The distinct group keys of `s`, in the order they first come.
pub open spec fn group_keys(s: Seq<TodoView>) -> Seq<Seq<char>>
    decreases s.len(),
{
    if s.len() == 0 {
        seq![]
    } else {
        let prior = group_keys(s.drop_last());
        if prior.contains(group_key(s.last())) {
            prior
        } else {
            prior.push(group_key(s.last()))
        }
    }
}

/// The records of `s` with group key `k`, in order.
pub open spec fn members(s: Seq<TodoView>, k: Seq<char>) -> Seq<TodoView>
    decreases s.len(),
{
    if s.len() == 0 {
        seq![]
    } else {
        let prior = members(s.drop_last(), k);
        if group_key(s.last()) == k {
            prior.push(s.last())
        } else {
            prior
        }
    }
}

/// The line that opens a group.
pub open spec fn group_open(f: OutputFormat, k: Seq<char>) -> Seq<char> {
    if f == OutputFormat::Toml {
        "["@ + k + "]\n"@
    } else {
        "\""@ + k + "\":\n"@
    }
}

/// The lines of one record inside a group.
pub open spec fn group_entry(f: OutputFormat, t: TodoView) -> Seq<char> {
    if f == OutputFormat::Toml {
        "[[todo]]\n"@ + "line = "@ + decimal(t.line_number) + "\n"@ + "comment = \""@
            + t.comment_text + "\"\n"@ + "uscore = "@ + decimal(t.priority as nat) + "\n"@
    } else {
        "    \"item\":\n"@ + "        \"line_number\": \""@ + decimal(t.line_number) + "\"\n"@
            + "        \"comment\": \""@ + t.comment_text + "\"\n"@ + "        \"uscore\": \""@
            + decimal(t.priority as nat) + "\"\n"@
    }
}

/// What stands between two entries of a group: a blank line in TOML,
/// nothing in YAML.
pub open spec fn entry_separator(f: OutputFormat) -> Seq<char> {
    if f == OutputFormat::Toml {
        "\n"@
    } else {
        seq![]
    }
}

/// The entries of a group, separated, with nothing after the last.
pub open spec fn group_entries(f: OutputFormat, m: Seq<TodoView>) -> Seq<char>
    decreases m.len(),
{
    if m.len() == 0 {
        seq![]
    } else if m.len() == 1 {
        group_entry(f, m[0])
    } else {
        group_entries(f, m.drop_last()) + entry_separator(f) + group_entry(f, m.last())
    }
}

/// The groups of `s` under the keys `ks`, in the order of `ks`.
pub open spec fn groups_text(f: OutputFormat, s: Seq<TodoView>, ks: Seq<Seq<char>>) -> Seq<char>
    decreases ks.len(),
{
    if ks.len() == 0 {
        seq![]
    } else {
        groups_text(f, s, ks.drop_last()) + group_open(f, ks.last()) + group_entries(
            f,
            members(s, ks.last()),
        )
    }
}

/// A grouped document: every group in the order its key first comes, then
/// a final newline.
pub open spec fn grouped_document(f: OutputFormat, s: Seq<TodoView>) -> Seq<char> {
    groups_text(f, s, group_keys(s)) + "\n"@
}

/// The TOML-like rendering.
pub open spec fn toml_document(s: Seq<TodoView>) -> Seq<char> {
    grouped_document(OutputFormat::Toml, s)
}

/// The YAML-like rendering.
pub open spec fn yaml_document(s: Seq<TodoView>) -> Seq<char> {
    grouped_document(OutputFormat::Yaml, s)
}

fn same_chars(a: &Vec<char>, b: &Vec<char>) -> (r: bool)
    ensures
        r == (a@ == b@),
{
    if a.len() != b.len() {
        return false;
    }
    let mut i: usize = 0;
    while i < a.len()
        invariant
            i <= a.len() == b.len(),
            forall|k: int| 0 <= k < i ==> a@[k] == b@[k],
        decreases a.len() - i,
    {
        if a[i] != b[i] {
            return false;
        }
        i = i + 1;
    }
    assert(a@ =~= b@);
    true
}

fn key_of(t: &TodoRecord) -> (r: Vec<char>)
    ensures
        r@ == group_key(t@),
{
    let mut k = chars_of(t.file_path.as_str());
    let mut n = chars_of(t.file_name.as_str());
    k.append(&mut n);
    k
}

fn keys_contain(ks: &Vec<Vec<char>>, k: &Vec<char>) -> (r: bool)
    ensures
        r == ks@.map_values(|v: Vec<char>| v@).contains(k@),
{
    let ghost kv = ks@.map_values(|v: Vec<char>| v@);
    let mut i: usize = 0;
    while i < ks.len()
        invariant
            i <= ks.len(),
            kv == ks@.map_values(|v: Vec<char>| v@),
            forall|j: int| 0 <= j < i ==> kv[j] != k@,
        decreases ks.len() - i,
    {
        if same_chars(&ks[i], k) {
            assert(kv[i as int] == k@);
            return true;
        }
        i = i + 1;
    }
    false
}

fn collect_keys(records: &Vec<TodoRecord>) -> (r: Vec<Vec<char>>)
    ensures
        r@.map_values(|v: Vec<char>| v@) == group_keys(views(records@)),
{
    let ghost s = views(records@);
    let mut ks: Vec<Vec<char>> = Vec::new();
    let mut i: usize = 0;
    assert(ks@.map_values(|v: Vec<char>| v@) =~= group_keys(s.take(0)));
    while i < records.len()
        invariant
            i <= records.len(),
            s == views(records@),
            ks@.map_values(|v: Vec<char>| v@) == group_keys(s.take(i as int)),
        decreases records.len() - i,
    {
        let k = key_of(&records[i]);
        assert(s.take(i + 1).drop_last() =~= s.take(i as int));
        if !keys_contain(&ks, &k) {
            let ghost before = ks@;
            ks.push(k);
            assert(ks@.map_values(|v: Vec<char>| v@) =~= before.map_values(|v: Vec<char>| v@).push(
                s[i as int].file_path + s[i as int].file_name,
            ));
        }
        i = i + 1;
    }
    assert(s.take(i as int) =~= s);
    ks
}

fn push_group_entry(f: OutputFormat, out: &mut String, t: &TodoRecord)
    ensures
        final(out)@ == old(out)@ + group_entry(f, t@),
{
    if f == OutputFormat::Toml {
        out.append("[[todo]]\n");
        out.append("line = ");
        push_decimal(out, t.line_number);
        out.append("\n");
        out.append("comment = \"");
        out.append(t.comment_text.as_str());
        out.append("\"\n");
        out.append("uscore = ");
        push_decimal(out, t.priority as usize);
        out.append("\n");
    } else {
        out.append("    \"item\":\n");
        out.append("        \"line_number\": \"");
        push_decimal(out, t.line_number);
        out.append("\"\n");
        out.append("        \"comment\": \"");
        out.append(t.comment_text.as_str());
        out.append("\"\n");
        out.append("        \"uscore\": \"");
        push_decimal(out, t.priority as usize);
        out.append("\"\n");
    }
    assert(out@ =~= old(out)@ + group_entry(f, t@));
}

fn push_group(f: OutputFormat, out: &mut String, records: &Vec<TodoRecord>, k: &Vec<char>)
    ensures
        final(out)@ == old(out)@ + group_open(f, k@) + group_entries(
            f,
            members(views(records@), k@),
        ),
{
    let ghost s = views(records@);
    if f == OutputFormat::Toml {
        out.append("[");
        push_chars(out, k);
        out.append("]\n");
    } else {
        out.append("\"");
        push_chars(out, k);
        out.append("\":\n");
    }
    assert(out@ =~= old(out)@ + group_open(f, k@));
    let ghost start = out@;
    let mut any = false;
    let mut i: usize = 0;
    while i < records.len()
        invariant
            i <= records.len(),
            s == views(records@),
            out@ == start + group_entries(f, members(s.take(i as int), k@)),
            any == (members(s.take(i as int), k@).len() > 0),
        decreases records.len() - i,
    {
        assert(s.take(i + 1).drop_last() =~= s.take(i as int));
        let key = key_of(&records[i]);
        if same_chars(&key, k) {
            let ghost m = members(s.take(i as int), k@);
            if any {
                if f == OutputFormat::Toml {
                    out.append("\n");
                }
                assert(out@ =~= start + group_entries(f, m) + entry_separator(f));
            }
            push_group_entry(f, out, &records[i]);
            assert(m.push(s[i as int]).drop_last() =~= m);
            assert(out@ =~= start + group_entries(f, m.push(s[i as int])));
            any = true;
        }
        i = i + 1;
    }
    assert(s.take(i as int) =~= s);
}

fn grouped(f: OutputFormat, records: &Vec<TodoRecord>) -> (r: String)
    requires
        f == OutputFormat::Toml || f == OutputFormat::Yaml,
    ensures
        r@ == grouped_document(f, views(records@)),
{
    let ghost s = views(records@);
    let ks = collect_keys(records);
    let ghost kv = ks@.map_values(|v: Vec<char>| v@);
    let mut out = String::new();
    let mut j: usize = 0;
    while j < ks.len()
        invariant
            j <= ks.len(),
            s == views(records@),
            kv == ks@.map_values(|v: Vec<char>| v@),
            out@ == groups_text(f, s, kv.take(j as int)),
        decreases ks.len() - j,
    {
        assert(kv.take(j + 1).drop_last() =~= kv.take(j as int));
        push_group(f, &mut out, records, &ks[j]);
        j = j + 1;
    }
    assert(kv.take(j as int) =~= kv);
    out.append("\n");
    out
}

/// The records as a TOML-like document: one `[path+name]` table per file,
/// with one `[[todo]]` entry per record, blank lines between entries.
pub fn out_as_toml_file(records: &Vec<TodoRecord>) -> (r: String)
    ensures
        r@ == toml_document(views(records@)),
{
    grouped(OutputFormat::Toml, records)
}

/// The records as a YAML-like document: one quoted `"path+name":` key per
/// file, with one `"item":` block per record.
pub fn out_as_yaml_file(records: &Vec<TodoRecord>) -> (r: String)
    ensures
        r@ == yaml_document(views(records@)),
{
    grouped(OutputFormat::Yaml, records)
}

/// The rendering of the records in format `f`.
pub open spec fn rendered(f: OutputFormat, s: Seq<TodoView>) -> Seq<char> {
    match f {
        OutputFormat::Md => md_table(s),
        OutputFormat::Json => json_document(s),
        OutputFormat::Yaml => yaml_document(s),
        OutputFormat::Toml => toml_document(s),
    }
}

/// Renders the records in format `f`.
pub fn render(f: OutputFormat, records: &Vec<TodoRecord>) -> (r: String)
    ensures
        r@ == rendered(f, views(records@)),
{
    match f {
        OutputFormat::Md => out_as_md_table(records),
        OutputFormat::Json => out_as_json_object(records),
        OutputFormat::Yaml => out_as_yaml_file(records),
        OutputFormat::Toml => out_as_toml_file(records),
    }
}

/// Fields joined by commas.
pub open spec fn join_fields(s: Seq<Seq<char>>) -> Seq<char>
    decreases s.len(),
{
    if s.len() == 0 {
        seq![]
    } else if s.len() == 1 {
        s[0]
    } else {
        join_fields(s.drop_last()) + seq![','] + s.last()
    }
}

/// The rows of `split` fields each, from field `start` on, each row its
/// fields joined by commas; the last row holds what is left.
pub open spec fn field_rows(fields: Seq<Seq<char>>, split: nat, start: int) -> Seq<Seq<char>>
    decreases fields.len() - start,
{
    if split == 0 || start < 0 || start >= fields.len() {
        seq![]
    } else {
        let end = if start + split < fields.len() {
            start + split
        } else {
            fields.len() as int
        };
        seq![join_fields(fields.subrange(start, end))] + field_rows(fields, split, end)
    }
}

/// Groups a flat list of fields into comma-joined rows of `split` fields,
/// the last row holding what is left.
pub fn split_csv(fields: &Vec<String>, split: usize) -> (r: Vec<String>)
    requires
        split > 0,
    ensures
        r@.map_values(|x: String| x@) == field_rows(
            fields@.map_values(|x: String| x@),
            split as nat,
            0,
        ),
{
    let ghost fs = fields@.map_values(|x: String| x@);
    let mut rows: Vec<String> = Vec::new();
    let mut start: usize = 0;
    assert(rows@.map_values(|x: String| x@) + field_rows(fs, split as nat, 0) =~= field_rows(
        fs,
        split as nat,
        0,
    ));
    while start < fields.len()
        invariant
            start <= fields.len(),
            split > 0,
            fs == fields@.map_values(|x: String| x@),
            rows@.map_values(|x: String| x@) + field_rows(fs, split as nat, start as int)
                == field_rows(fs, split as nat, 0),
        decreases fields.len() - start,
    {
        let end = if split > fields.len() - start {
            fields.len()
        } else {
            start + split
        };
        let mut row = String::new();
        let mut j: usize = start;
        assert(fs.subrange(start as int, start as int) =~= seq![]);
        while j < end
            invariant
                start <= j <= end <= fields.len(),
                fs == fields@.map_values(|x: String| x@),
                row@ == join_fields(fs.subrange(start as int, j as int)),
            decreases end - j,
        {
            if j > start {
                row.append(",");
                assert(","@ =~= seq![',']) by {
                    reveal_strlit(",");
                }
            }
            row.append(fields[j].as_str());
            assert(fs.subrange(start as int, j + 1).drop_last() =~= fs.subrange(
                start as int,
                j as int,
            ));
            j = j + 1;
        }
        let ghost before = rows@;
        rows.push(row);
        assert(rows@.map_values(|x: String| x@) =~= before.map_values(|x: String| x@).push(
            join_fields(fs.subrange(start as int, end as int)),
        ));
        start = end;
    }
    rows
}

} // verus!
