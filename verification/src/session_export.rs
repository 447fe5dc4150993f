//! Saved sessions as JSON, CSV, TSV, plain text, NDJSON and Markdown.
use vstd::prelude::*;

use crate::json::{
    array_of, items_or_empty, json_views, real_or, real_or_default, u64_or, uint_or, with_entry,
    written_entries_are_read, Json, JsonView,
};
use crate::network_guard::{field_text_or, text_field_or};
use crate::text::{
    all_ascii, ascii_lower, cat, cat3, chars_of, dec, dec_int, decimal, decimal_int, join, joined,
    lemma_trimmed, lower, lowercase, same, text_of, trim, trimmed, views,
};

verus! {

// ---------------------------------------------------------------------------------------------
// Formats

/// A format of an export.
pub struct Format {
    pub id: &'static str,
    pub ext: &'static str,
    pub mime: &'static str,
    pub label: &'static str,
}

/// The name, the ending, the media type and the label of each format.
pub open spec fn format_list() -> Seq<(Seq<char>, Seq<char>, Seq<char>, Seq<char>)> {
    seq![
        ("json"@, "json"@, "application/json"@, "Full session bundle (JSON)"@),
        ("csv"@, "csv"@, "text/csv; charset=utf-8"@, "Peer table (CSV)"@),
        ("tsv"@, "tsv"@, "text/tab-separated-values; charset=utf-8"@, "Peer table (TSV)"@),
        ("txt"@, "txt"@, "text/plain; charset=utf-8"@, "Human-readable report"@),
        ("ndjson"@, "ndjson"@, "application/x-ndjson; charset=utf-8"@, "One JSON object per peer"@),
        ("md"@, "md"@, "text/markdown; charset=utf-8"@, "Markdown report with peer table"@),
    ]
}

pub open spec fn format_views(v: Seq<Format>) -> Seq<(Seq<char>, Seq<char>, Seq<char>, Seq<char>)> {
    v.map_values(|f: Format| (f.id@, f.ext@, f.mime@, f.label@))
}

/// The formats that there are.
pub fn formats_json() -> (r: Vec<Format>)
    ensures
        format_views(r@) == format_list(),
{
    let mut v: Vec<Format> = Vec::new();
    v.push(
        Format {
            id: "json",
            ext: "json",
            mime: "application/json",
            label: "Full session bundle (JSON)",
        },
    );
    v.push(
        Format {
            id: "csv",
            ext: "csv",
            mime: "text/csv; charset=utf-8",
            label: "Peer table (CSV)",
        },
    );
    v.push(
        Format {
            id: "tsv",
            ext: "tsv",
            mime: "text/tab-separated-values; charset=utf-8",
            label: "Peer table (TSV)",
        },
    );
    v.push(
        Format {
            id: "txt",
            ext: "txt",
            mime: "text/plain; charset=utf-8",
            label: "Human-readable report",
        },
    );
    v.push(
        Format {
            id: "ndjson",
            ext: "ndjson",
            mime: "application/x-ndjson; charset=utf-8",
            label: "One JSON object per peer",
        },
    );
    v.push(
        Format {
            id: "md",
            ext: "md",
            mime: "text/markdown; charset=utf-8",
            label: "Markdown report with peer table",
        },
    );
    assert(format_views(v@) =~= format_list());
    v
}

/// The format that a word in lower case asks for; the word itself where there is none.
pub open spec fn format_of(word: Seq<char>) -> Seq<char> {
    if word == ""@ || word == "json"@ {
        "json"@
    } else if word == "csv"@ {
        "csv"@
    } else if word == "tsv"@ || word == "tab"@ {
        "tsv"@
    } else if word == "txt"@ || word == "text"@ || word == "log"@ {
        "txt"@
    } else if word == "ndjson"@ || word == "jsonl"@ || word == "jsonlines"@ {
        "ndjson"@
    } else if word == "md"@ || word == "markdown"@ {
        "md"@
    } else {
        word
    }
}

/// The format that a word in lower case asks for.
pub fn format_named(word: &str) -> (r: String)
    ensures
        r@ == format_of(word@),
{
    if same(word, "") || same(word, "json") {
        "json".to_owned()
    } else if same(word, "csv") {
        "csv".to_owned()
    } else if same(word, "tsv") || same(word, "tab") {
        "tsv".to_owned()
    } else if same(word, "txt") || same(word, "text") || same(word, "log") {
        "txt".to_owned()
    } else if same(word, "ndjson") || same(word, "jsonl") || same(word, "jsonlines") {
        "ndjson".to_owned()
    } else if same(word, "md") || same(word, "markdown") {
        "md".to_owned()
    } else {
        word.to_owned()
    }
}

/// The format that a word asks for, in any case and with white space around it.
pub open spec fn normalized(raw: Seq<char>) -> Seq<char> {
    format_of(lowercase(trimmed(raw)))
}

/// The word names a format, by its id or by another name.
pub open spec fn names_a_format(word: Seq<char>) -> bool {
    exists|i: int| 0 <= i < format_list().len() && format_of(word) == #[trigger] format_list()[i].0
}

/// The format that a word asks for, in any case and with white space around it.
pub fn normalize_format(raw: &str) -> (r: String)
    ensures
        r@ == normalized(raw@),
{
    let t = trim(raw);
    let word = lower(t.as_str());
    format_named(word.as_str())
}

/// A format stands in lower case, without white space, and is its own name.
proof fn lemma_format_ids()
    ensures
        forall|i: int| 0 <= i < 6 ==> is_plain_id(#[trigger] format_list()[i].0),
{
    reveal_strlit("json");
    reveal_strlit("csv");
    reveal_strlit("tsv");
    reveal_strlit("txt");
    reveal_strlit("ndjson");
    reveal_strlit("md");
    let l = format_list();
    assert(is_plain_id(l[0].0));
    assert(is_plain_id(l[1].0));
    assert(is_plain_id(l[2].0));
    assert(is_plain_id(l[3].0));
    assert(is_plain_id(l[4].0));
    assert(is_plain_id(l[5].0));
}

/// A text of small letters.
spec fn is_plain_id(id: Seq<char>) -> bool {
    id.len() > 0 && forall|i: int| 0 <= i < id.len() ==> 'a' <= #[trigger] id[i] <= 'z'
}

/// A format that was named stays as it is when it is named again.
pub proof fn format_names_are_fixed(word: Seq<char>)
    ensures
        format_of(format_of(word)) == format_of(word),
{
    reveal_strlit("");
    reveal_strlit("json");
    reveal_strlit("csv");
    reveal_strlit("tsv");
    reveal_strlit("tab");
    reveal_strlit("txt");
    reveal_strlit("text");
    reveal_strlit("log");
    reveal_strlit("ndjson");
    reveal_strlit("jsonl");
    reveal_strlit("jsonlines");
    reveal_strlit("md");
    reveal_strlit("markdown");
    assert("csv"@.len() == 3 && "tsv"@.len() == 3 && "txt"@.len() == 3 && "tab"@.len() == 3
        && "log"@.len() == 3);
    assert("csv"@[0] == 'c' && "tsv"@[0] == 't' && "tsv"@[1] == 's' && "txt"@[1] == 'x'
        && "tab"@[1] == 'a' && "log"@[0] == 'l');
    assert("json"@.len() == 4 && "text"@.len() == 4 && "ndjson"@.len() == 6 && "md"@.len() == 2
        && ""@.len() == 0);
}

/// What a format is asked for by: white space around the word is not seen, a blank word asks for
/// JSON, and a word that names no format comes back in lower case. What came back asks for itself:
/// every format does, and so does every word of ASCII characters.
pub proof fn formats_are_settled(raw: Seq<char>)
    ensures
        normalized(trimmed(raw)) == normalized(raw),
        trimmed(raw).len() == 0 ==> normalized(raw) == "json"@,
        !names_a_format(lowercase(trimmed(raw))) ==> normalized(raw) == lowercase(trimmed(raw)),
        names_a_format(lowercase(trimmed(raw))) || all_ascii(raw) ==> normalized(normalized(raw))
            == normalized(raw),
{
    let t = trimmed(raw);
    let w = lowercase(t);
    lemma_trimmed(raw);
    lemma_format_ids();
    format_names_are_fixed(w);
    reveal_strlit("");
    assert(t.len() == 0 ==> w =~= ""@);
    assert(format_list().len() == 6);
    assert(format_list()[0].0 == "json"@ && format_list()[1].0 == "csv"@ && format_list()[2].0
        == "tsv"@ && format_list()[3].0 == "txt"@ && format_list()[4].0 == "ndjson"@
        && format_list()[5].0 == "md"@);
    if names_a_format(w) {
        let i = choose|i: int|
            0 <= i < format_list().len() && format_of(w) == #[trigger] format_list()[i].0;
        let id = format_of(w);
        assert(is_plain_id(id));
        lemma_trimmed(id);
        assert(id.map_values(|c: char| ascii_lower(c)) =~= id);
    } else if all_ascii(raw) {
        assert(format_of(w) == w);
        assert(w.len() == t.len());
        assert forall|i: int| 0 <= i < w.len() implies (#[trigger] w[i] as u32) < 128 && ascii_lower(
            w[i],
        ) == w[i] by {
            assert(w[i] == ascii_lower(t[i]));
        }
        assert(w.map_values(|c: char| ascii_lower(c)) =~= w);
        if w.len() > 0 {
            assert(w[0] == ascii_lower(t[0]) && w.last() == ascii_lower(t.last()));
            lemma_trimmed(w);
        }
    }
}

// ---------------------------------------------------------------------------------------------
// Cells

/// The columns of a table of peers.
pub open spec fn columns() -> Seq<Seq<char>> {
    seq![
        "ip"@,
        "label"@,
        "role"@,
        "identical_count"@,
        "identical_size"@,
        "packet_size_min"@,
        "packet_size_max"@,
        "total_packets"@,
        "tiny_packets"@,
        "poll_hits"@,
        "suspicious"@,
        "vps_probe"@,
        "first_seen"@,
        "last_seen"@,
    ]
}

fn column_list() -> (r: Vec<String>)
    ensures
        views(r@) == columns(),
{
    let mut v: Vec<String> = Vec::new();
    v.push("ip".to_owned());
    v.push("label".to_owned());
    v.push("role".to_owned());
    v.push("identical_count".to_owned());
    v.push("identical_size".to_owned());
    v.push("packet_size_min".to_owned());
    v.push("packet_size_max".to_owned());
    v.push("total_packets".to_owned());
    v.push("tiny_packets".to_owned());
    v.push("poll_hits".to_owned());
    v.push("suspicious".to_owned());
    v.push("vps_probe".to_owned());
    v.push("first_seen".to_owned());
    v.push("last_seen".to_owned());
    assert(views(v@) =~= columns());
    v
}

/// The text of a cell. A list or an object stands as its JSON text, which `nested` holds.
pub open spec fn cell_text(v: Option<JsonView>, nested: Seq<char>) -> Seq<char> {
    match v {
        None => Seq::empty(),
        Some(JsonView::Null) => Seq::empty(),
        Some(JsonView::Str(s)) => s,
        Some(JsonView::Bool(b)) => if b {
            "true"@
        } else {
            "false"@
        },
        Some(JsonView::UInt(n)) => decimal(n as nat),
        Some(JsonView::Int(n)) => decimal_int(n as int),
        Some(JsonView::Real { micro, text }) => text,
        Some(JsonView::Arr(_)) => nested,
        Some(JsonView::Obj(_)) => nested,
    }
}

/// The text of a column of a peer; `nested` holds the JSON texts of its columns.
pub open spec fn cell(p: JsonView, c: int, nested: Seq<Seq<char>>) -> Seq<char> {
    cell_text(
        p.field(columns()[c]),
        if c < nested.len() {
            nested[c]
        } else {
            Seq::empty()
        },
    )
}

fn peer_field(p: &Json, key: &str, nested: &str) -> (r: String)
    ensures
        r@ == cell_text(p@.field(key@), nested@),
{
    match p.get(key) {
        None => {
            let s = String::new();
            assert(s@ =~= Seq::empty());
            s
        },
        Some(v) => {
            proof {
                reveal_with_fuel(crate::json::json_view, 2);
            }
            match v {
                Json::Null => {
                    let s = String::new();
                    assert(s@ =~= Seq::empty());
                    s
                },
                Json::Str(s) => s.as_str().to_owned(),
                Json::Bool(b) => if *b {
                    "true".to_owned()
                } else {
                    "false".to_owned()
                },
                Json::UInt(n) => dec(*n),
                Json::Int(n) => dec_int(*n),
                Json::Real { micro: _, text } => text.as_str().to_owned(),
                Json::Arr(_) => nested.to_owned(),
                Json::Obj(_) => nested.to_owned(),
            }
        },
    }
}

fn column_text(p: &Json, cols: &Vec<String>, c: usize, nested: &Vec<String>) -> (r: String)
    requires
        views(cols@) == columns(),
        c < 14,
    ensures
        r@ == cell(p@, c as int, views(nested@)),
{
    assert(cols@.len() == views(cols@).len());
    assert(views(cols@)[c as int] == cols@[c as int]@);
    if c < nested.len() {
        assert(views(nested@)[c as int] == nested@[c as int]@);
        peer_field(p, cols[c].as_str(), nested[c].as_str())
    } else {
        let none = String::new();
        assert(none@ =~= Seq::empty());
        peer_field(p, cols[c].as_str(), none.as_str())
    }
}

// ---------------------------------------------------------------------------------------------
// Delimited rows

/// Each quotation mark twice.
pub open spec fn doubled(s: Seq<char>) -> Seq<char>
    decreases s.len(),
{
    if s.len() == 0 {
        Seq::empty()
    } else if s.last() == '"' {
        doubled(s.drop_last()) + seq!['"', '"']
    } else {
        doubled(s.drop_last()).push(s.last())
    }
}

/// The cell cannot stand as it is.
pub open spec fn needs_quotes(s: Seq<char>, delim: char) -> bool {
    s.contains(delim) || s.contains('"') || s.contains('\n') || s.contains('\r')
}

/// A cell as it stands in a row.
pub open spec fn escaped(s: Seq<char>, delim: char) -> Seq<char> {
    if needs_quotes(s, delim) {
        seq!['"'] + doubled(s) + seq!['"']
    } else {
        s
    }
}

/// Each pair of quotation marks once.
pub open spec fn halved(s: Seq<char>) -> Seq<char>
    decreases s.len(),
{
    if s.len() == 0 {
        Seq::empty()
    } else if s.len() >= 2 && s.last() == '"' && s[s.len() - 2] == '"' {
        halved(s.drop_last().drop_last()).push('"')
    } else {
        halved(s.drop_last()).push(s.last())
    }
}

/// What a reader takes a cell for.
pub open spec fn unescaped(s: Seq<char>) -> Seq<char> {
    if s.len() >= 2 && s[0] == '"' {
        halved(s.subrange(1, s.len() - 1))
    } else {
        s
    }
}

proof fn lemma_doubled(s: Seq<char>)
    ensures
        halved(doubled(s)) == s,
    decreases s.len(),
{
    if s.len() > 0 {
        let u = s.drop_last();
        lemma_doubled(u);
        let d = doubled(s);
        if s.last() == '"' {
            assert(d.drop_last().drop_last() =~= doubled(u));
        } else {
            assert(d.drop_last() =~= doubled(u));
        }
        assert(s =~= u.push(s.last()));
    }
}

/// A cell is read back as what was written. One without delimiter, quotation mark and line break
/// stands as it is; any other stands between quotation marks, and what stands between them is the
/// cell where each pair of quotation marks is read as one.
pub proof fn cells_are_read_back(s: Seq<char>, delim: char)
    ensures
        unescaped(escaped(s, delim)) == s,
        escaped(s, delim) == s <==> !needs_quotes(s, delim),
        needs_quotes(s, delim) ==> {
            let e = escaped(s, delim);
            &&& e.len() >= 2
            &&& e[0] == '"'
            &&& e.last() == '"'
            &&& halved(e.subrange(1, e.len() - 1)) == s
        },
{
    lemma_doubled(s);
    let e = escaped(s, delim);
    if needs_quotes(s, delim) {
        assert(e.subrange(1, e.len() - 1) =~= doubled(s));
        lemma_doubled_grows(s);
        assert(e.len() > s.len());
    } else if s.len() >= 2 && s[0] == '"' {
        assert(s.contains('"'));
    }
}

proof fn lemma_doubled_grows(s: Seq<char>)
    ensures
        doubled(s).len() >= s.len(),
    decreases s.len(),
{
    if s.len() > 0 {
        lemma_doubled_grows(s.drop_last());
    }
}

/// Two cells that stand alike in a row are alike.
pub proof fn cells_stand_apart(a: Seq<char>, b: Seq<char>, delim: char)
    ensures
        escaped(a, delim) == escaped(b, delim) ==> a == b,
{
    cells_are_read_back(a, delim);
    cells_are_read_back(b, delim);
}

/// A cell as it stands in a row: as it is, or between quotation marks where it holds the
/// delimiter, a quotation mark or a line break.
pub fn delimited_escape(s: &str, delim: char) -> (r: String)
    ensures
        r@ == escaped(s@, delim),
{
    let v = chars_of(s);
    let mut quote = false;
    let mut body = String::new();
    let mut i: usize = 0;
    assert(body@ =~= doubled(v@.take(0)));
    while i < v.len()
        invariant
            i <= v.len(),
            body@ == doubled(v@.take(i as int)),
            quote == needs_quotes(v@.take(i as int), delim),
        decreases v.len() - i,
    {
        let c = v[i];
        proof {
            let t = v@.take(i + 1);
            let u = v@.take(i as int);
            assert(t.drop_last() =~= u);
            assert(t.last() == c);
            assert forall|x: char| t.contains(x) <==> u.contains(x) || x == c by {
                if u.contains(x) {
                    let k = choose|k: int| 0 <= k < u.len() && u[k] == x;
                    assert(t[k] == x);
                }
                if t.contains(x) && x != c {
                    let k = choose|k: int| 0 <= k < t.len() && t[k] == x;
                    assert(u[k] == x);
                }
                if x == c {
                    assert(t[i as int] == x);
                }
            }
        }
        if c == delim || c == '"' || c == '\n' || c == '\r' {
            quote = true;
        }
        if c == '"' {
            body.push('"');
            body.push('"');
            assert(body@ =~= doubled(v@.take(i as int)) + seq!['"', '"']);
        } else {
            body.push(c);
        }
        i += 1;
    }
    assert(v@.take(i as int) =~= s@);
    if quote {
        let mut out = String::new();
        out.push('"');
        out.append(body.as_str());
        out.push('"');
        assert(out@ =~= seq!['"'] + doubled(s@) + seq!['"']);
        out
    } else {
        s.to_owned()
    }
}

// ---------------------------------------------------------------------------------------------
// Rows

/// How a row is laid out.
#[derive(Clone, Copy)]
pub enum RowStyle {
    Delimited(char),
    Plain,
    Markdown,
}

pub open spec fn spaces(n: nat) -> Seq<char> {
    Seq::new(n, |i: int| ' ')
}

/// Filled up with spaces behind.
pub open spec fn left_aligned(s: Seq<char>, width: nat) -> Seq<char> {
    if s.len() < width {
        s + spaces((width - s.len()) as nat)
    } else {
        s
    }
}

/// Filled up with spaces in front.
pub open spec fn right_aligned(s: Seq<char>, width: nat) -> Seq<char> {
    if s.len() < width {
        spaces((width - s.len()) as nat) + s
    } else {
        s
    }
}

/// Cut to a number of characters, with a mark where something was cut off.
pub open spec fn cut_text(s: Seq<char>, max: nat) -> Seq<char> {
    if s.len() <= max {
        s
    } else {
        s.take(if max == 0 {
            0
        } else {
            max - 1
        }) + "…"@
    }
}

/// The label of a peer with its role, where the role says more.
pub open spec fn label_and_role(label: Seq<char>, role: Seq<char>) -> Seq<char> {
    if role.len() == 0 || role == label {
        label
    } else {
        label + " · "@ + role
    }
}

/// The sizes of a peer's packets.
pub open spec fn size_range(p: JsonView, style: RowStyle) -> Seq<char> {
    let min = uint_or(p.field("packet_size_min"@), 0);
    let max = uint_or(p.field("packet_size_max"@), 0);
    if min == 0 && max == 0 {
        "—"@
    } else if style is Plain {
        if min == max {
            decimal(min as nat) + " (fixed)"@
        } else {
            decimal(min as nat) + "-"@ + decimal(max as nat)
        }
    } else {
        if min == max {
            decimal(min as nat)
        } else {
            decimal(min as nat) + "–"@ + decimal(max as nat)
        }
    }
}

pub open spec fn plain_line(t: Seq<Seq<char>>) -> Seq<char> {
    left_aligned(t[0], 16) + " "@ + left_aligned(t[1], 28) + " "@ + right_aligned(t[2], 9) + " "@
        + right_aligned(t[3], 6) + " "@ + right_aligned(t[4], 11) + " "@ + right_aligned(t[5], 8)
        + " "@ + right_aligned(t[6], 5) + " "@ + right_aligned(t[7], 6) + "\n"@
}

/// A row of the table.
pub open spec fn row_text(style: RowStyle, p: JsonView, nested: Seq<Seq<char>>) -> Seq<char> {
    match style {
        RowStyle::Delimited(delim) => joined(
            Seq::new(14, |c: int| escaped(cell(p, c, nested), delim)),
            seq![delim],
        ) + "\n"@,
        RowStyle::Plain => plain_line(
            seq![
                cell(p, 0, nested),
                cut_text(label_and_role(cell(p, 1, nested), cell(p, 2, nested)), 28),
                cell(p, 3, nested),
                cell(p, 4, nested),
                size_range(p, style),
                cell(p, 7, nested),
                cell(p, 8, nested),
                cell(p, 9, nested),
            ],
        ),
        RowStyle::Markdown => "| "@ + joined(
            seq![
                cell(p, 0, nested),
                cell(p, 1, nested),
                cell(p, 2, nested),
                cell(p, 3, nested),
                cell(p, 4, nested),
                size_range(p, style),
                cell(p, 7, nested),
                cell(p, 8, nested),
                cell(p, 9, nested),
                cell(p, 11, nested),
            ],
            " | "@,
        ) + " |\n"@,
    }
}

pub open spec fn nested_views(v: Seq<Vec<String>>) -> Seq<Seq<Seq<char>>> {
    v.map_values(|t: Vec<String>| views(t@))
}

pub open spec fn nested_of(nested: Seq<Seq<Seq<char>>>, i: int) -> Seq<Seq<char>> {
    if i < nested.len() {
        nested[i]
    } else {
        Seq::empty()
    }
}

/// The rows of the table, one after the other.
pub open spec fn table_text(
    style: RowStyle,
    peers: Seq<JsonView>,
    nested: Seq<Seq<Seq<char>>>,
) -> Seq<char>
    decreases peers.len(),
{
    if peers.len() == 0 {
        Seq::empty()
    } else {
        table_text(style, peers.drop_last(), nested) + row_text(
            style,
            peers.last(),
            nested_of(nested, peers.len() - 1),
        )
    }
}

fn push_spaces(s: &mut String, n: usize)
    ensures
        final(s)@ == old(s)@ + spaces(n as nat),
{
    let mut i: usize = 0;
    assert(s@ =~= old(s)@ + spaces(0));
    while i < n
        invariant
            i <= n,
            s@ == old(s)@ + spaces(i as nat),
        decreases n - i,
    {
        s.push(' ');
        assert(s@ =~= old(s)@ + spaces((i + 1) as nat));
        i += 1;
    }
}

fn align_left(s: &str, width: usize) -> (r: String)
    ensures
        r@ == left_aligned(s@, width as nat),
{
    let n: usize = chars_of(s).len();
    let mut out = s.to_owned();
    if n < width {
        push_spaces(&mut out, width - n);
    }
    out
}

fn align_right(s: &str, width: usize) -> (r: String)
    ensures
        r@ == right_aligned(s@, width as nat),
{
    let n: usize = chars_of(s).len();
    if n < width {
        let mut out = String::new();
        push_spaces(&mut out, width - n);
        out.append(s);
        assert(out@ =~= spaces((width - n) as nat) + s@);
        out
    } else {
        s.to_owned()
    }
}

fn truncate(s: &str, max: usize) -> (r: String)
    ensures
        r@ == cut_text(s@, max as nat),
{
    let v = chars_of(s);
    if v.len() <= max {
        return s.to_owned();
    }
    let keep: usize = if max == 0 {
        0
    } else {
        max - 1
    };
    let t = text_of(&v, 0, keep);
    assert(t@ =~= s@.take(keep as int));
    cat(t.as_str(), "…")
}

fn with_role(label: &str, role: &str) -> (r: String)
    ensures
        r@ == label_and_role(label@, role@),
{
    if role.is_empty() || same(role, label) {
        label.to_owned()
    } else {
        cat3(label, " · ", role)
    }
}

fn size_text(p: &Json, style: RowStyle) -> (r: String)
    ensures
        r@ == size_range(p@, style),
{
    let min: u64 = u64_or(p.get("packet_size_min"), 0);
    let max: u64 = u64_or(p.get("packet_size_max"), 0);
    if min == 0 && max == 0 {
        return "—".to_owned();
    }
    let lo = dec(min);
    let hi = dec(max);
    match style {
        RowStyle::Plain => if min == max {
            cat(lo.as_str(), " (fixed)")
        } else {
            cat3(lo.as_str(), "-", hi.as_str())
        },
        _ => if min == max {
            lo
        } else {
            cat3(lo.as_str(), "–", hi.as_str())
        },
    }
}

fn plain_row(t: &Vec<String>) -> (r: String)
    requires
        t.len() == 8,
    ensures
        r@ == plain_line(views(t@)),
{
    let ghost v = views(t@);
    assert(v[0] == t@[0]@ && v[1] == t@[1]@ && v[2] == t@[2]@ && v[3] == t@[3]@);
    assert(v[4] == t@[4]@ && v[5] == t@[5]@ && v[6] == t@[6]@ && v[7] == t@[7]@);
    let mut s = align_left(t[0].as_str(), 16);
    s.append(" ");
    s.append(align_left(t[1].as_str(), 28).as_str());
    s.append(" ");
    s.append(align_right(t[2].as_str(), 9).as_str());
    s.append(" ");
    s.append(align_right(t[3].as_str(), 6).as_str());
    s.append(" ");
    s.append(align_right(t[4].as_str(), 11).as_str());
    s.append(" ");
    s.append(align_right(t[5].as_str(), 8).as_str());
    s.append(" ");
    s.append(align_right(t[6].as_str(), 5).as_str());
    s.append(" ");
    s.append(align_right(t[7].as_str(), 6).as_str());
    s.append("\n");
    s
}

fn one_char(c: char) -> (r: String)
    ensures
        r@ == seq![c],
{
    let mut s = String::new();
    s.push(c);
    assert(s@ =~= seq![c]);
    s
}

fn delimited_row(p: &Json, cols: &Vec<String>, nested: &Vec<String>, delim: char) -> (r: String)
    requires
        views(cols@) == columns(),
    ensures
        r@ == row_text(RowStyle::Delimited(delim), p@, views(nested@)),
{
    let ghost want = Seq::new(14, |c: int| escaped(cell(p@, c, views(nested@)), delim));
    let mut cells: Vec<String> = Vec::new();
    let mut c: usize = 0;
    while c < 14
        invariant
            c <= 14,
            views(cols@) == columns(),
            want == Seq::new(14, |c: int| escaped(cell(p@, c, views(nested@)), delim)),
            views(cells@) =~= want.take(c as int),
        decreases 14 - c,
    {
        let t = column_text(p, cols, c, nested);
        let ghost before = cells@;
        let e = delimited_escape(t.as_str(), delim);
        cells.push(e);
        assert(views(cells@) =~= views(before).push(e@));
        assert(want[c as int] == e@);
        c += 1;
    }
    assert(want.take(14) =~= want);
    let sep = one_char(delim);
    let mut s = join(&cells, sep.as_str());
    s.append("\n");
    s
}

fn text_row(p: &Json, cols: &Vec<String>, nested: &Vec<String>) -> (r: String)
    requires
        views(cols@) == columns(),
    ensures
        r@ == row_text(RowStyle::Plain, p@, views(nested@)),
{
    let ghost n = views(nested@);
    let label = column_text(p, cols, 1, nested);
    let role = column_text(p, cols, 2, nested);
    let both = with_role(label.as_str(), role.as_str());
    let mut t: Vec<String> = Vec::new();
    t.push(column_text(p, cols, 0, nested));
    t.push(truncate(both.as_str(), 28));
    t.push(column_text(p, cols, 3, nested));
    t.push(column_text(p, cols, 4, nested));
    t.push(size_text(p, RowStyle::Plain));
    t.push(column_text(p, cols, 7, nested));
    t.push(column_text(p, cols, 8, nested));
    t.push(column_text(p, cols, 9, nested));
    assert(views(t@) =~= seq![
        cell(p@, 0, n),
        cut_text(label_and_role(cell(p@, 1, n), cell(p@, 2, n)), 28),
        cell(p@, 3, n),
        cell(p@, 4, n),
        size_range(p@, RowStyle::Plain),
        cell(p@, 7, n),
        cell(p@, 8, n),
        cell(p@, 9, n),
    ]);
    plain_row(&t)
}

fn markdown_row(p: &Json, cols: &Vec<String>, nested: &Vec<String>) -> (r: String)
    requires
        views(cols@) == columns(),
    ensures
        r@ == row_text(RowStyle::Markdown, p@, views(nested@)),
{
    let ghost n = views(nested@);
    let mut t: Vec<String> = Vec::new();
    t.push(column_text(p, cols, 0, nested));
    t.push(column_text(p, cols, 1, nested));
    t.push(column_text(p, cols, 2, nested));
    t.push(column_text(p, cols, 3, nested));
    t.push(column_text(p, cols, 4, nested));
    t.push(size_text(p, RowStyle::Markdown));
    t.push(column_text(p, cols, 7, nested));
    t.push(column_text(p, cols, 8, nested));
    t.push(column_text(p, cols, 9, nested));
    t.push(column_text(p, cols, 11, nested));
    assert(views(t@) =~= seq![
        cell(p@, 0, n),
        cell(p@, 1, n),
        cell(p@, 2, n),
        cell(p@, 3, n),
        cell(p@, 4, n),
        size_range(p@, RowStyle::Markdown),
        cell(p@, 7, n),
        cell(p@, 8, n),
        cell(p@, 9, n),
        cell(p@, 11, n),
    ]);
    let cells = join(&t, " | ");
    cat3("| ", cells.as_str(), " |\n")
}

fn row_of(style: RowStyle, p: &Json, cols: &Vec<String>, nested: &Vec<String>) -> (r: String)
    requires
        views(cols@) == columns(),
    ensures
        r@ == row_text(style, p@, views(nested@)),
{
    match style {
        RowStyle::Delimited(delim) => delimited_row(p, cols, nested, delim),
        RowStyle::Plain => text_row(p, cols, nested),
        RowStyle::Markdown => markdown_row(p, cols, nested),
    }
}

fn append_rows(out: &mut String, style: RowStyle, peers: &Vec<Json>, nested: &Vec<Vec<String>>)
    ensures
        final(out)@ == old(out)@ + table_text(style, json_views(peers@), nested_views(nested@)),
{
    let cols = column_list();
    let none: Vec<String> = Vec::new();
    let ghost all = json_views(peers@);
    let ghost n = nested_views(nested@);
    let mut i: usize = 0;
    assert(old(out)@ + table_text(style, all.take(0), n) =~= old(out)@);
    assert(views(none@) =~= Seq::empty());
    while i < peers.len()
        invariant
            i <= peers.len(),
            all == json_views(peers@),
            n == nested_views(nested@),
            views(cols@) == columns(),
            views(none@) == Seq::<Seq<char>>::empty(),
            out@ == old(out)@ + table_text(style, all.take(i as int), n),
        decreases peers.len() - i,
    {
        proof {
            let t = all.take(i + 1);
            assert(t.drop_last() =~= all.take(i as int));
            assert(t.last() == peers@[i as int]@);
        }
        let row = if i < nested.len() {
            assert(n[i as int] == views(nested@[i as int]@));
            row_of(style, &peers[i], &cols, &nested[i])
        } else {
            row_of(style, &peers[i], &cols, &none)
        };
        proof {
            assert(row@ == row_text(style, all[i as int], nested_of(n, i as int)));
            assert(old(out)@ + table_text(style, all.take(i + 1), n) =~= old(out)@ + table_text(
                style,
                all.take(i as int),
                n,
            ) + row@);
        }
        out.append(row.as_str());
        i += 1;
    }
    assert(all.take(i as int) =~= all);
}

// ---------------------------------------------------------------------------------------------
// Reports

/// Two digits.
pub open spec fn two_digits(n: nat) -> Seq<char> {
    if n < 10 {
        "0"@ + decimal(n)
    } else {
        decimal(n)
    }
}

fn pad2(n: u64) -> (r: String)
    ensures
        r@ == two_digits(n as nat),
{
    let d = dec(n);
    if n < 10 {
        cat("0", d.as_str())
    } else {
        d
    }
}

/// A time in millionths of a second, as days and clock time.
pub open spec fn time_text(ts: int) -> Seq<char> {
    if ts <= 0 {
        "—"@
    } else {
        let secs = (ts / 1_000_000) as nat;
        let rem = secs % 86_400;
        decimal(secs / 86_400) + "d "@ + two_digits(rem / 3600) + ":"@ + two_digits(
            (rem % 3600) / 60,
        ) + ":"@ + two_digits(rem % 60) + " UTC (unix "@ + decimal(secs) + ")"@
    }
}

/// A time in millionths of a second, as days and clock time.
pub fn fmt_ts(ts: i64) -> (r: String)
    ensures
        r@ == time_text(ts as int),
{
    if ts <= 0 {
        return "—".to_owned();
    }
    let secs: u64 = (ts / 1_000_000) as u64;
    let rem: u64 = secs % 86_400;
    let mut s = dec(secs / 86_400);
    s.append("d ");
    s.append(pad2(rem / 3600).as_str());
    s.append(":");
    s.append(pad2((rem % 3600) / 60).as_str());
    s.append(":");
    s.append(pad2(rem % 60).as_str());
    s.append(" UTC (unix ");
    s.append(dec(secs).as_str());
    s.append(")");
    s
}

pub open spec fn meta(detail: JsonView, key: Seq<char>) -> Option<JsonView> {
    detail.field_in("meta"@, key)
}

pub open spec fn peers_in(detail: JsonView) -> Seq<JsonView> {
    items_or_empty(detail.field("peers"@))
}

/// The table of peers with its columns as the first row.
pub open spec fn delimited_text(
    detail: JsonView,
    nested: Seq<Seq<Seq<char>>>,
    delim: char,
) -> Seq<char> {
    joined(columns(), seq![delim]) + "\n"@ + table_text(
        RowStyle::Delimited(delim),
        peers_in(detail),
        nested,
    )
}

/// The report as plain text.
pub open spec fn report_text(
    hex: Seq<char>,
    detail: JsonView,
    nested: Seq<Seq<Seq<char>>>,
) -> Seq<char> {
    "Warzone Lobby Sentinel — session export\n"@ + "========================================\n\n"@
        + "Session:     "@ + hex + "\nPhase:       "@ + text_field_or(meta(detail, "phase"@), "—"@)
        + "\nStarted:     "@ + time_text(real_or(meta(detail, "started_at"@), 0))
        + "\nPeer count:  "@ + decimal(peers_in(detail).len()) + "\nSnapshots:   "@ + decimal(
        uint_or(detail.field("snapshot_count"@), 0) as nat,
    ) + "\nTable clears:"@ + decimal(uint_or(meta(detail, "clear_count"@), 0) as nat)
        + "\n\nInbound IPs — identical packet count\n"@
        + "------------------------------------\n"@ + plain_line(
        seq![
            "IP"@,
            "Label / role"@,
            "Identical"@,
            "Peak"@,
            "Size spread"@,
            "Total in"@,
            "Tiny"@,
            "Polls"@,
        ],
    ) + table_text(RowStyle::Plain, peers_in(detail), nested) + "\n"@
}

/// The report in Markdown.
pub open spec fn markdown_text(
    hex: Seq<char>,
    detail: JsonView,
    nested: Seq<Seq<Seq<char>>>,
) -> Seq<char> {
    "# Warzone session export\n\n- **Session:** `"@ + hex + "`\n- **Phase:** "@ + text_field_or(
        meta(detail, "phase"@),
        "—"@,
    ) + "\n- **Started:** "@ + time_text(real_or(meta(detail, "started_at"@), 0))
        + "\n- **Peers:** "@ + decimal(peers_in(detail).len())
        + "\n\n## Inbound IPs — identical packet count\n\n"@
        + "| IP | Label | Role | Identical | Peak (B) | Size spread | Total in | Tiny | Polls | VPS |\n"@
        + "| --- | --- | --- | ---: | ---: | --- | ---: | ---: | ---: | --- |\n"@ + table_text(
        RowStyle::Markdown,
        peers_in(detail),
        nested,
    )
}

fn add_table(out: &mut String, style: RowStyle, detail: &Json, nested: &Vec<Vec<String>>)
    ensures
        final(out)@ == old(out)@ + table_text(style, peers_in(detail@), nested_views(nested@)),
{
    match array_of(detail.get("peers")) {
        Some(v) => {
            append_rows(out, style, v, nested);
        },
        None => {
            assert(out@ =~= old(out)@ + table_text(
                style,
                peers_in(detail@),
                nested_views(nested@),
            ));
        },
    }
}

fn peer_count(detail: &Json) -> (r: String)
    ensures
        r@ == decimal(peers_in(detail@).len()),
{
    match array_of(detail.get("peers")) {
        Some(v) => {
            assert(json_views(v@).len() == v@.len());
            dec(v.len() as u64)
        },
        None => dec(0),
    }
}

fn started_text(detail: &Json) -> (r: String)
    ensures
        r@ == time_text(real_or(meta(detail@, "started_at"@), 0)),
{
    fmt_ts(real_or_default(detail.get_in("meta", "started_at"), 0))
}

fn export_peers_delimited(detail: &Json, nested: &Vec<Vec<String>>, delim: char) -> (r: String)
    ensures
        r@ == delimited_text(detail@, nested_views(nested@), delim),
{
    let cols = column_list();
    let sep = one_char(delim);
    let mut out = join(&cols, sep.as_str());
    out.append("\n");
    add_table(&mut out, RowStyle::Delimited(delim), detail, nested);
    out
}

fn headings() -> (r: String)
    ensures
        r@ == plain_line(
            seq![
                "IP"@,
                "Label / role"@,
                "Identical"@,
                "Peak"@,
                "Size spread"@,
                "Total in"@,
                "Tiny"@,
                "Polls"@,
            ],
        ),
{
    let mut t: Vec<String> = Vec::new();
    t.push("IP".to_owned());
    t.push("Label / role".to_owned());
    t.push("Identical".to_owned());
    t.push("Peak".to_owned());
    t.push("Size spread".to_owned());
    t.push("Total in".to_owned());
    t.push("Tiny".to_owned());
    t.push("Polls".to_owned());
    assert(views(t@) =~= seq![
        "IP"@,
        "Label / role"@,
        "Identical"@,
        "Peak"@,
        "Size spread"@,
        "Total in"@,
        "Tiny"@,
        "Polls"@,
    ]);
    plain_row(&t)
}

fn export_txt(hex: &str, detail: &Json, nested: &Vec<Vec<String>>) -> (r: String)
    ensures
        r@ == report_text(hex@, detail@, nested_views(nested@)),
{
    let mut out = "Warzone Lobby Sentinel — session export\n".to_owned();
    out.append("========================================\n\n");
    out.append("Session:     ");
    out.append(hex);
    out.append("\nPhase:       ");
    out.append(field_text_or(detail.get_in("meta", "phase"), "—").as_str());
    out.append("\nStarted:     ");
    out.append(started_text(detail).as_str());
    out.append("\nPeer count:  ");
    out.append(peer_count(detail).as_str());
    out.append("\nSnapshots:   ");
    out.append(dec(u64_or(detail.get("snapshot_count"), 0)).as_str());
    out.append("\nTable clears:");
    out.append(dec(u64_or(detail.get_in("meta", "clear_count"), 0)).as_str());
    out.append("\n\nInbound IPs — identical packet count\n");
    out.append("------------------------------------\n");
    out.append(headings().as_str());
    add_table(&mut out, RowStyle::Plain, detail, nested);
    out.append("\n");
    out
}

fn export_markdown(hex: &str, detail: &Json, nested: &Vec<Vec<String>>) -> (r: String)
    ensures
        r@ == markdown_text(hex@, detail@, nested_views(nested@)),
{
    let mut out = "# Warzone session export\n\n- **Session:** `".to_owned();
    out.append(hex);
    out.append("`\n- **Phase:** ");
    out.append(field_text_or(detail.get_in("meta", "phase"), "—").as_str());
    out.append("\n- **Started:** ");
    out.append(started_text(detail).as_str());
    out.append("\n- **Peers:** ");
    out.append(peer_count(detail).as_str());
    out.append("\n\n## Inbound IPs — identical packet count\n\n");
    out.append(
        "| IP | Label | Role | Identical | Peak (B) | Size spread | Total in | Tiny | Polls | VPS |\n",
    );
    out.append("| --- | --- | --- | ---: | ---: | --- | ---: | ---: | ---: | --- |\n");
    add_table(&mut out, RowStyle::Markdown, detail, nested);
    out
}

// ---------------------------------------------------------------------------------------------
// One object per line

/// A peer that says which session it is of.
pub open spec fn tagged(p: JsonView, hex: Seq<char>) -> JsonView {
    match p {
        JsonView::Obj(o) => JsonView::Obj(with_entry(o, "session_hex"@, JsonView::Str(hex))),
        other => other,
    }
}

/// The peers of a session, each of which says which session it is of.
pub fn tagged_peers(hex: &str, detail: &Json) -> (r: Vec<Json>)
    ensures
        json_views(r@) == peers_in(detail@).map_values(|p: JsonView| tagged(p, hex@)),
{
    let ghost want = peers_in(detail@).map_values(|p: JsonView| tagged(p, hex@));
    let mut out: Vec<Json> = Vec::new();
    match array_of(detail.get("peers")) {
        None => {
            assert(json_views(out@) =~= want);
        },
        Some(v) => {
            let mut i: usize = 0;
            while i < v.len()
                invariant
                    i <= v.len(),
                    want == json_views(v@).map_values(|p: JsonView| tagged(p, hex@)),
                    json_views(out@) =~= want.take(i as int),
                decreases v.len() - i,
            {
                let mut p = v[i].dup();
                let _ok = p.set("session_hex", crate::json::text(hex));
                let ghost before = out@;
                out.push(p);
                assert(json_views(out@) =~= json_views(before).push(p@));
                assert(want[i as int] == tagged(v@[i as int]@, hex@));
                i += 1;
            }
            assert(want.take(i as int) =~= want);
        },
    }
    out
}

/// The JSON texts of the peers, a line each. A peer that has no text is left out.
pub open spec fn lines_text(lines: Seq<Option<String>>) -> Seq<char>
    decreases lines.len(),
{
    if lines.len() == 0 {
        Seq::empty()
    } else {
        let earlier = lines_text(lines.drop_last());
        match lines.last() {
            Some(t) => earlier + t@ + "\n"@,
            None => earlier,
        }
    }
}

fn export_ndjson(lines: &Vec<Option<String>>) -> (r: String)
    ensures
        r@ == lines_text(lines@),
{
    let mut out = String::new();
    let mut i: usize = 0;
    assert(out@ =~= lines_text(lines@.take(0)));
    while i < lines.len()
        invariant
            i <= lines.len(),
            out@ == lines_text(lines@.take(i as int)),
        decreases lines.len() - i,
    {
        proof {
            let t = lines@.take(i + 1);
            assert(t.drop_last() =~= lines@.take(i as int));
            assert(t.last() == lines@[i as int]);
        }
        if let Some(t) = &lines[i] {
            out.append(t.as_str());
            out.append("\n");
        }
        i += 1;
    }
    assert(lines@.take(i as int) =~= lines@);
    out
}

// ---------------------------------------------------------------------------------------------
// Exports

/// The JSON texts that an export is made with.
pub struct ExportTexts {
    /// The text of the bundle, or why there is none; nothing where there is no bundle.
    pub bundle: Option<Result<String, String>>,
    /// The texts of the tagged peers.
    pub lines: Vec<Option<String>>,
    /// For each peer the text of each column, of which those of lists and objects are used.
    pub nested: Vec<Vec<String>>,
}

/// An export.
pub struct Export {
    pub body: String,
    pub ext: &'static str,
    pub mime: &'static str,
}

pub open spec fn is_format(fmt: Seq<char>) -> bool {
    ||| fmt == "json"@
    ||| fmt == "csv"@
    ||| fmt == "tsv"@
    ||| fmt == "txt"@
    ||| fmt == "ndjson"@
    ||| fmt == "md"@
}

/// The body, the ending and the media type of an export in a format.
pub open spec fn is_export(
    e: Export,
    hex: Seq<char>,
    detail: JsonView,
    texts: ExportTexts,
    fmt: Seq<char>,
) -> bool {
    let nested = nested_views(texts.nested@);
    if fmt == "json"@ {
        e.ext@ == "json"@ && e.mime@ == "application/json"@ && match texts.bundle {
            Some(Ok(t)) => e.body@ == t@,
            _ => false,
        }
    } else if fmt == "csv"@ {
        e.ext@ == "csv"@ && e.mime@ == "text/csv; charset=utf-8"@ && e.body@ == delimited_text(
            detail,
            nested,
            ',',
        )
    } else if fmt == "tsv"@ {
        e.ext@ == "tsv"@ && e.mime@ == "text/tab-separated-values; charset=utf-8"@ && e.body@
            == delimited_text(detail, nested, '\t')
    } else if fmt == "txt"@ {
        e.ext@ == "txt"@ && e.mime@ == "text/plain; charset=utf-8"@ && e.body@ == report_text(
            hex,
            detail,
            nested,
        )
    } else if fmt == "ndjson"@ {
        e.ext@ == "ndjson"@ && e.mime@ == "application/x-ndjson; charset=utf-8"@ && e.body@
            == lines_text(texts.lines@)
    } else {
        fmt == "md"@ && e.ext@ == "md"@ && e.mime@ == "text/markdown; charset=utf-8"@ && e.body@
            == markdown_text(hex, detail, nested)
    }
}

/// Why there is no export.
pub open spec fn export_error(texts: ExportTexts, fmt: Seq<char>) -> Option<Seq<char>> {
    if fmt == "json"@ {
        match texts.bundle {
            None => Some("json export requires bundle"@),
            Some(Err(e)) => Some(e@),
            Some(Ok(_)) => None,
        }
    } else if is_format(fmt) {
        None
    } else {
        Some("unsupported format '"@ + fmt + "' — use json, csv, tsv, txt, ndjson, or md"@)
    }
}

/// A session in a format that was settled on.
pub fn export_as(hex: &str, detail: &Json, texts: &ExportTexts, fmt: &str) -> (r: Result<
    Export,
    String,
>)
    ensures
        r is Ok <==> export_error(*texts, fmt@) is None,
        r matches Ok(e) ==> is_export(e, hex@, detail@, *texts, fmt@),
        r matches Err(e) ==> export_error(*texts, fmt@) == Some(e@),
{
    if same(fmt, "json") {
        match &texts.bundle {
            None => Err("json export requires bundle".to_owned()),
            Some(Err(e)) => Err(e.as_str().to_owned()),
            Some(Ok(t)) => Ok(
                Export { body: t.as_str().to_owned(), ext: "json", mime: "application/json" },
            ),
        }
    } else if same(fmt, "csv") {
        Ok(
            Export {
                body: export_peers_delimited(detail, &texts.nested, ','),
                ext: "csv",
                mime: "text/csv; charset=utf-8",
            },
        )
    } else if same(fmt, "tsv") {
        Ok(
            Export {
                body: export_peers_delimited(detail, &texts.nested, '\t'),
                ext: "tsv",
                mime: "text/tab-separated-values; charset=utf-8",
            },
        )
    } else if same(fmt, "txt") {
        Ok(
            Export {
                body: export_txt(hex, detail, &texts.nested),
                ext: "txt",
                mime: "text/plain; charset=utf-8",
            },
        )
    } else if same(fmt, "ndjson") {
        Ok(
            Export {
                body: export_ndjson(&texts.lines),
                ext: "ndjson",
                mime: "application/x-ndjson; charset=utf-8",
            },
        )
    } else if same(fmt, "md") {
        Ok(
            Export {
                body: export_markdown(hex, detail, &texts.nested),
                ext: "md",
                mime: "text/markdown; charset=utf-8",
            },
        )
    } else {
        Err(cat3("unsupported format '", fmt, "' — use json, csv, tsv, txt, ndjson, or md"))
    }
}

/// A session in the format that a word asks for.
pub fn export_session(hex: &str, detail: &Json, texts: &ExportTexts, format: &str) -> (r: Result<
    Export,
    String,
>)
    ensures
        ({
            let fmt = normalized(format@);
            &&& r is Ok <==> export_error(*texts, fmt) is None
            &&& r matches Ok(e) ==> is_export(e, hex@, detail@, *texts, fmt)
            &&& r matches Err(e) ==> export_error(*texts, fmt) == Some(e@)
        }),
{
    let fmt = normalize_format(format);
    export_as(hex, detail, texts, fmt.as_str())
}

/// The name of the file that an export is saved under.
pub fn attachment_name(hex: &str, ext: &str) -> (r: String)
    ensures
        r@ == "warzone-session-"@ + hex@ + "."@ + ext@,
{
    let mut s = cat3("warzone-session-", hex, ".");
    s.append(ext);
    s
}

/// A format has more than one name: no name is JSON, and each other name stands for the format that
/// it abbreviates or spells out.
pub proof fn formats_have_other_names()
    ensures
        format_of(""@) == "json"@ && format_of("json"@) == "json"@,
        format_of("csv"@) == "csv"@,
        format_of("tab"@) == "tsv"@ && format_of("tsv"@) == "tsv"@,
        format_of("text"@) == "txt"@ && format_of("log"@) == "txt"@ && format_of("txt"@) == "txt"@,
        format_of("jsonl"@) == "ndjson"@ && format_of("jsonlines"@) == "ndjson"@ && format_of(
            "ndjson"@,
        ) == "ndjson"@,
        format_of("markdown"@) == "md"@ && format_of("md"@) == "md"@,
{
    reveal_strlit("");
    reveal_strlit("json");
    reveal_strlit("csv");
    reveal_strlit("tab");
    reveal_strlit("tsv");
    reveal_strlit("text");
    reveal_strlit("log");
    reveal_strlit("txt");
    reveal_strlit("jsonl");
    reveal_strlit("jsonlines");
    reveal_strlit("ndjson");
    reveal_strlit("markdown");
    reveal_strlit("md");
    assert(""@.len() == 0 && "json"@.len() == 4 && "csv"@.len() == 3 && "tab"@.len() == 3
        && "tsv"@.len() == 3 && "text"@.len() == 4 && "log"@.len() == 3 && "txt"@.len() == 3
        && "jsonl"@.len() == 5 && "jsonlines"@.len() == 9 && "ndjson"@.len() == 6
        && "markdown"@.len() == 8 && "md"@.len() == 2);
    assert("json"@[0] == 'j' && "text"@[0] == 't' && "csv"@[0] == 'c' && "log"@[0] == 'l'
        && "tab"@[1] == 'a' && "tsv"@[1] == 's' && "txt"@[1] == 'x' && "tab"@[0] == 't'
        && "tsv"@[0] == 't' && "txt"@[0] == 't');
}

/// An export fails for want of a bundle, with the error of one, or for a format that is none of
/// the six; and in no other case.
pub proof fn exports_fail_for_a_reason(texts: ExportTexts, fmt: Seq<char>)
    ensures
        ({
            let other = fmt == "csv"@ || fmt == "tsv"@ || fmt == "txt"@ || fmt == "ndjson"@ || fmt
                == "md"@;
            &&& fmt == "json"@ && texts.bundle is None ==> export_error(texts, fmt) == Some(
                "json export requires bundle"@,
            )
            &&& fmt == "json"@ && texts.bundle is Some ==> (export_error(texts, fmt) is None
                <==> texts.bundle->0 is Ok)
            &&& fmt != "json"@ ==> (export_error(texts, fmt) is None <==> other)
        }),
{
}

/// A text that is cut is at most as long as its limit, ends in an ellipsis where it was longer, and
/// begins as it did.
pub proof fn cut_texts_are_short(s: Seq<char>, max: nat)
    requires
        max > 0,
    ensures
        cut_text(s, max).len() <= max,
        s.len() <= max ==> cut_text(s, max) == s,
        s.len() > max ==> cut_text(s, max).len() == max && cut_text(s, max).last() == '…'
            && cut_text(s, max).drop_last().is_prefix_of(s),
{
    reveal_strlit("…");
    assert("…"@.len() == 1 && "…"@[0] == '…');
    if s.len() > max {
        let t = cut_text(s, max);
        assert(t.drop_last() =~= s.take(max - 1));
        assert(s.subrange(0, max - 1) =~= s.take(max - 1));
    }
}

/// An aligned text has the width at least, its text at its side, and blanks at the other.
pub proof fn aligned_texts_have_the_width(s: Seq<char>, width: nat)
    ensures
        left_aligned(s, width).len() >= width && right_aligned(s, width).len() >= width,
        s.is_prefix_of(left_aligned(s, width)),
        s.len() <= width ==> left_aligned(s, width).len() == width && right_aligned(s, width).len()
            == width,
        s.len() >= width ==> left_aligned(s, width) == s && right_aligned(s, width) == s,
        s.len() < width ==> left_aligned(s, width).last() == ' ' && right_aligned(s, width)[0]
            == ' ' && right_aligned(s, width).skip(width - s.len()) == s,
{
    let l = left_aligned(s, width);
    assert(l.subrange(0, s.len() as int) =~= s);
    if s.len() < width {
        assert(right_aligned(s, width).skip(width - s.len()) =~= s);
    }
}

/// A time is shown as days, hours, minutes and seconds since the epoch, and in seconds.
pub proof fn times_are_shown_by_the_clock(
    days: nat,
    hours: nat,
    minutes: nat,
    seconds: nat,
    rest: nat,
)
    requires
        hours < 24,
        minutes < 60,
        seconds < 60,
        rest < 1_000_000,
        days + hours + minutes + seconds > 0,
    ensures
        ({
            let all = 86_400 * days + 3600 * hours + 60 * minutes + seconds;
            time_text((all * 1_000_000 + rest) as int) == decimal(days) + "d "@ + two_digits(hours)
                + ":"@ + two_digits(minutes) + ":"@ + two_digits(seconds) + " UTC (unix "@
                + decimal(all) + ")"@
        }),
{
    let all = 86_400 * days + 3600 * hours + 60 * minutes + seconds;
    let ts = (all * 1_000_000 + rest) as int;
    assert(ts / 1_000_000 == all);
    assert(all / 86_400 == days && all % 86_400 == 3600 * hours + 60 * minutes + seconds);
    let rem = (3600 * hours + 60 * minutes + seconds) as nat;
    assert(rem / 3600 == hours && rem % 3600 == 60 * minutes + seconds);
    assert((rem % 3600) / 60 == minutes && rem % 60 == seconds);
}

/// Sizes are shown as a range, as one size where they are the same, and as a dash where none is
/// known.
pub proof fn sizes_are_shown_as_a_range(p: JsonView, style: RowStyle)
    ensures
        ({
            let min = uint_or(p.field("packet_size_min"@), 0);
            let max = uint_or(p.field("packet_size_max"@), 0);
            &&& min == 0 && max == 0 ==> size_range(p, style) == "—"@
            &&& 0 < min == max && style is Plain ==> size_range(p, style) == decimal(min as nat)
                + " (fixed)"@
            &&& 0 < min == max && !(style is Plain) ==> size_range(p, style) == decimal(min as nat)
            &&& min < max && style is Plain ==> size_range(p, style) == decimal(min as nat) + "-"@
                + decimal(max as nat)
            &&& min < max && !(style is Plain) ==> size_range(p, style) == decimal(min as nat)
                + "–"@ + decimal(max as nat)
        }),
{
}

/// A role stands behind its label unless it is the label or there is none.
pub proof fn roles_stand_behind_labels(label: Seq<char>, role: Seq<char>)
    ensures
        label.is_prefix_of(label_and_role(label, role)),
        role.len() == 0 || role == label <==> label_and_role(label, role) == label,
{
    reveal_strlit(" · ");
    assert(" · "@.len() == 3);
    let t = label_and_role(label, role);
    assert(t.subrange(0, label.len() as int) =~= label);
}

/// A table has a row for each peer, in their order; lines are those that are there, each with its
/// end.
pub proof fn tables_have_a_row_each(
    style: RowStyle,
    peers: Seq<JsonView>,
    nested: Seq<Seq<Seq<char>>>,
    p: JsonView,
    lines: Seq<Option<String>>,
    line: Option<String>,
)
    ensures
        table_text(style, peers.push(p), nested) == table_text(style, peers, nested) + row_text(
            style,
            p,
            nested_of(nested, peers.len() as int),
        ),
        line is None ==> lines_text(lines.push(line)) == lines_text(lines),
        line is Some ==> lines_text(lines.push(line)) == lines_text(lines) + line->0@ + "\n"@,
{
    assert(peers.push(p).drop_last() =~= peers);
    assert(lines.push(line).drop_last() =~= lines);
}

/// A peer that is exported names its session, and keeps all else.
pub proof fn exported_peers_name_their_session(
    o: Seq<(Seq<char>, JsonView)>,
    hex: Seq<char>,
    other: Seq<char>,
)
    ensures
        tagged(JsonView::Obj(o), hex).field("session_hex"@) == Some(JsonView::Str(hex)),
        other != "session_hex"@ ==> tagged(JsonView::Obj(o), hex).field(other) == JsonView::Obj(
            o,
        ).field(other),
{
    written_entries_are_read(o, "session_hex"@, JsonView::Str(hex), other);
}

/// A cell shows each kind of value as what it is, nothing where there is none, and the text that
/// was made of it where it is nested.
pub proof fn cells_show_their_value(v: JsonView, nested: Seq<char>)
    ensures
        cell_text(None, nested).len() == 0,
        v is Null ==> cell_text(Some(v), nested).len() == 0,
        v matches JsonView::Str(s) ==> cell_text(Some(v), nested) == s,
        v == JsonView::Bool(true) ==> cell_text(Some(v), nested) == "true"@,
        v == JsonView::Bool(false) ==> cell_text(Some(v), nested) == "false"@,
        v matches JsonView::UInt(n) ==> cell_text(Some(v), nested) == decimal(n as nat),
        v is Arr || v is Obj ==> cell_text(Some(v), nested) == nested,
{
}

/// A delimited table begins with its columns, and a report names its session.
pub proof fn exports_begin_with_their_head(
    hex: Seq<char>,
    detail: JsonView,
    nested: Seq<Seq<Seq<char>>>,
    delim: char,
)
    ensures
        columns().len() == 14,
        columns()[0] == "ip"@ && columns()[3] == "identical_count"@ && columns()[7]
            == "total_packets"@ && columns()[13] == "last_seen"@,
        joined(columns(), seq![delim]).is_prefix_of(delimited_text(detail, nested, delim)),
        peers_in(detail).len() == 0 ==> delimited_text(detail, nested, delim) == joined(
            columns(),
            seq![delim],
        ) + "\n"@,
{
    let h = joined(columns(), seq![delim]);
    let t = delimited_text(detail, nested, delim);
    assert(t.subrange(0, h.len() as int) =~= h);
    if peers_in(detail).len() == 0 {
        assert(t =~= h + "\n"@);
    }
}

} // verus!
