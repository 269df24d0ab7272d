//! Reading and editing the list of dependencies, line by line.
//!
//! Only declarations of the forms `gem 'name'`, `gem "name"` and those with
//! version requirements after the name are read.

use vstd::prelude::*;
use vstd::string::StringExecFns;
use crate::text::{
    chars_of,
    find_char,
    find_from,
    has_at,
    join,
    join_strings,
    lines,
    split_lines,
    starts_with_at,
    str_eq,
    string_of_range,
    trim_bounds,
    trimmed,
};

verus! {

broadcast use vstd::string::group_string_axioms;

/// One declared dependency.
#[derive(Debug, Clone, PartialEq)]
pub struct GemEntry {
    pub name: String,
    /// The version requirements, joined by a comma and a blank.
    pub version: Option<String>,
}

/// The mathematical model of a [`GemEntry`].
pub struct GemEntryData {
    pub name: Seq<char>,
    pub version: Option<Seq<char>>,
}

impl DeepView for GemEntry {
    type V = GemEntryData;

    open spec fn deep_view(&self) -> GemEntryData {
        GemEntryData { name: self.name@, version: self.version.deep_view() }
    }
}

/// The text between the first `quote` of `s` and the next one after it; `None`
/// where `s` holds fewer than two.
pub open spec fn quoted_by(s: Seq<char>, quote: char) -> Option<Seq<char>> {
    let open = find_from(s, quote, 0);
    if open < s.len() {
        let close = find_from(s, quote, open + 1);
        if close < s.len() {
            Some(s.subrange(open + 1, close))
        } else {
            None
        }
    } else {
        None
    }
}

/// The first quoted text of `s`: what stands between double quotes where `s`
/// holds two of them, else what stands between single quotes.
pub open spec fn first_quoted(s: Seq<char>) -> Option<Seq<char>> {
    match quoted_by(s, '"') {
        Some(t) => Some(t),
        None => quoted_by(s, '\''),
    }
}

/// Whether `c` opens and closes a quoted text.
pub open spec fn is_quote(c: char) -> bool {
    c == '\'' || c == '"'
}

/// All the quoted texts of `s` from index `i` on, in order. A quote opens a text
/// that runs to the next quote of the same kind, or to the end of `s`.
pub open spec fn quoted_from(s: Seq<char>, i: int) -> Seq<Seq<char>>
    decreases s.len() - i,
{
    if i < 0 || i >= s.len() {
        Seq::empty()
    } else if is_quote(s[i]) {
        let close = find_from(s, s[i], i + 1);
        if i < close < s.len() {
            seq![s.subrange(i + 1, close)] + quoted_from(s, close + 1)
        } else {
            seq![s.subrange(i + 1, s.len() as int)]
        }
    } else {
        quoted_from(s, i + 1)
    }
}

/// The version requirements that follow the name in a declaration: the quoted
/// texts after the first, joined by a comma and a blank. `None` where there is
/// none, or where the first quoted text is not the name.
pub open spec fn version_specs(s: Seq<char>, name: Seq<char>) -> Option<Seq<char>> {
    let all = quoted_from(s, 0);
    if all.len() <= 1 || all[0] != name {
        None
    } else {
        Some(join(all.skip(1), ", "@))
    }
}

/// What follows `gem ` or `gem(` at the start of a trimmed line.
pub open spec fn declaration_rest(t: Seq<char>) -> Option<Seq<char>> {
    if has_at(t, 0, "gem "@) || has_at(t, 0, "gem("@) {
        Some(t.skip(4))
    } else {
        None
    }
}

/// The dependency that one line declares.
pub open spec fn gem_of_line(line: Seq<char>) -> Option<GemEntryData> {
    let t = trimmed(line);
    if t.len() == 0 || t[0] == '#' {
        None
    } else {
        match declaration_rest(t) {
            Some(rest) => match first_quoted(rest) {
                Some(name) => Some(GemEntryData { name, version: version_specs(rest, name) }),
                None => None,
            },
            None => None,
        }
    }
}

/// The dependencies that the first `n` lines declare, in order.
pub open spec fn gems_of(ls: Seq<Seq<char>>, n: int) -> Seq<GemEntryData>
    decreases n,
{
    if n <= 0 {
        Seq::empty()
    } else {
        match gem_of_line(ls[n - 1]) {
            Some(e) => gems_of(ls, n - 1).push(e),
            None => gems_of(ls, n - 1),
        }
    }
}

/// The dependencies that a text declares, in the order of its lines.
pub open spec fn parsed_content(content: Seq<char>) -> Seq<GemEntryData> {
    gems_of(lines(content), lines(content).len() as int)
}

/// Whether a text declares the dependency `name`.
pub open spec fn declares(content: Seq<char>, name: Seq<char>) -> bool {
    exists|i: int|
        0 <= i < parsed_content(content).len() && (#[trigger] parsed_content(content)[i]).name
            == name
}

/// The end of `s[..j]` once its trailing line feeds are cut off.
pub open spec fn drop_line_feeds(s: Seq<char>, j: int) -> int
    decreases j,
{
    if 0 < j <= s.len() && s[j - 1] == '\n' {
        drop_line_feeds(s, j - 1)
    } else {
        j
    }
}

/// The line that declares the dependency `name`, with its line feed.
pub open spec fn gem_line(name: Seq<char>, version: Option<Seq<char>>) -> Seq<char> {
    match version {
        Some(v) => "gem '"@ + name + "', '"@ + v + "'\n"@,
        None => "gem '"@ + name + "'\n"@,
    }
}

/// The text with a declaration of `name` added at its end; `None` where the text
/// declares `name` already.
pub open spec fn with_gem(content: Seq<char>, name: Seq<char>, version: Option<Seq<char>>) -> Option<
    Seq<char>,
> {
    if declares(content, name) {
        None
    } else {
        Some(
            content.take(drop_line_feeds(content, content.len() as int)) + seq!['\n'] + gem_line(
                name,
                version,
            ),
        )
    }
}

/// Whether a line declares the dependency `name`.
pub open spec fn line_declares(line: Seq<char>, name: Seq<char>) -> bool {
    match gem_of_line(line) {
        Some(e) => e.name == name,
        None => false,
    }
}

/// Those of the first `n` lines that do not declare `name`, in order.
pub open spec fn lines_without(ls: Seq<Seq<char>>, name: Seq<char>, n: int) -> Seq<Seq<char>>
    decreases n,
{
    if n <= 0 {
        Seq::empty()
    } else if line_declares(ls[n - 1], name) {
        lines_without(ls, name, n - 1)
    } else {
        lines_without(ls, name, n - 1).push(ls[n - 1])
    }
}

/// `s` with a line feed at its end, unless it ends with one.
pub open spec fn line_feed_ended(s: Seq<char>) -> Seq<char> {
    if s.len() > 0 && s.last() == '\n' {
        s
    } else {
        s + seq!['\n']
    }
}

/// The text without the lines that declare `name`; `None` where no line does.
pub open spec fn without_gem(content: Seq<char>, name: Seq<char>) -> Option<Seq<char>> {
    let ls = lines(content);
    let kept = lines_without(ls, name, ls.len() as int);
    if kept.len() == ls.len() {
        None
    } else {
        Some(line_feed_ended(join(kept, seq!['\n'])))
    }
}

fn quoted_in(v: &Vec<char>, quote: char) -> (r: Option<String>)
    ensures
        r.deep_view() == quoted_by(v@, quote),
{
    let open = find_char(v, quote, 0);
    if open < v.len() {
        let close = find_char(v, quote, open + 1);
        if close < v.len() {
            Some(string_of_range(v, open + 1, close))
        } else {
            None
        }
    } else {
        None
    }
}

/// The first quoted text of `s`.
pub fn extract_first_quoted(s: &str) -> (r: Option<String>)
    ensures
        r.deep_view() == first_quoted(s@),
{
    let v = chars_of(s);
    match quoted_in(&v, '"') {
        Some(t) => Some(t),
        None => quoted_in(&v, '\''),
    }
}

/// The version requirements that follow the name `gem_name` in `line`.
pub fn extract_version_specs(line: &str, gem_name: &str) -> (r: Option<String>)
    ensures
        r.deep_view() == version_specs(line@, gem_name@),
{
    let v = chars_of(line);
    let mut quoted: Vec<String> = Vec::new();
    let mut i: usize = 0;
    assert(quoted.deep_view() + quoted_from(v@, 0) =~= quoted_from(v@, 0));
    while i < v.len()
        invariant
            i <= v.len(),
            v@ == line@,
            quoted.deep_view() + quoted_from(v@, i as int) == quoted_from(v@, 0),
        decreases v.len() - i,
    {
        let c = v[i];
        if c == '\'' || c == '"' {
            let close = find_char(&v, c, i + 1);
            let text = string_of_range(&v, i + 1, close);
            let ghost before = quoted.deep_view();
            quoted.push(text);
            assert(quoted.deep_view() =~= before.push(text@));
            let next: usize = if close < v.len() {
                close + 1
            } else {
                v.len()
            };
            proof {
                assert(quoted_from(v@, i as int) =~= seq![text@] + quoted_from(v@, next as int));
                assert(before.push(text@) + quoted_from(v@, next as int) =~= before + quoted_from(
                    v@,
                    i as int,
                ));
            }
            i = next;
        } else {
            i += 1;
        }
    }
    let ghost all = quoted.deep_view();
    assert(all =~= quoted_from(v@, 0));
    if quoted.len() <= 1 {
        return None;
    }
    assert(all[0] == quoted@[0]@);
    if !str_eq(quoted[0].as_str(), gem_name) {
        return None;
    }
    let mut specs: Vec<String> = Vec::new();
    let mut k: usize = 1;
    assert(specs.deep_view() =~= all.skip(1).take(0));
    while k < quoted.len()
        invariant
            1 <= k <= quoted.len(),
            all == quoted.deep_view(),
            specs.deep_view() == all.skip(1).take(k - 1),
        decreases quoted.len() - k,
    {
        let ghost before = specs.deep_view();
        specs.push(quoted[k].clone());
        assert(specs.deep_view() =~= before.push(quoted@[k as int]@));
        assert(all.skip(1).take(k as int) =~= all.skip(1).take(k - 1).push(all[k as int]));
        k += 1;
    }
    assert(all.skip(1).take(k - 1) =~= all.skip(1));
    Some(join_strings(specs.as_slice(), ", "))
}

fn sub_vec(v: &Vec<char>, from: usize, to: usize) -> (r: Vec<char>)
    requires
        from <= to <= v.len(),
    ensures
        r@ == v@.subrange(from as int, to as int),
{
    let mut r: Vec<char> = Vec::new();
    let mut i: usize = from;
    while i < to
        invariant
            from <= i <= to <= v.len(),
            r@ == v@.subrange(from as int, i as int),
        decreases to - i,
    {
        r.push(v[i]);
        i += 1;
    }
    r
}

/// The dependency that one line declares.
pub fn parse_gem_line(line: &str) -> (r: Option<GemEntry>)
    ensures
        r.deep_view() == gem_of_line(line@),
{
    let v = chars_of(line);
    let (lo, hi) = trim_bounds(&v);
    let t = sub_vec(&v, lo, hi);
    assert(t@ == trimmed(line@));
    if t.len() == 0 || t[0] == '#' {
        return None;
    }
    proof {
        reveal_strlit("gem ");
        reveal_strlit("gem(");
    }
    if !(starts_with_at(&t, 0, "gem ") || starts_with_at(&t, 0, "gem(")) {
        return None;
    }
    let rest = string_of_range(&t, 4, t.len());
    assert(rest@ == t@.skip(4));
    let name = match extract_first_quoted(rest.as_str()) {
        Some(n) => n,
        None => { return None; },
    };
    let version = extract_version_specs(rest.as_str(), name.as_str());
    Some(GemEntry { name, version })
}

/// The dependencies that a text declares, in the order of its lines.
pub fn parse_content(content: &str) -> (r: Vec<GemEntry>)
    ensures
        r.deep_view() == parsed_content(content@),
{
    let ls = split_lines(content);
    let ghost all = lines(content@);
    let mut r: Vec<GemEntry> = Vec::new();
    let mut i: usize = 0;
    assert(r.deep_view() =~= Seq::<GemEntryData>::empty());
    while i < ls.len()
        invariant
            i <= ls.len(),
            all == ls.deep_view(),
            r.deep_view() == gems_of(all, i as int),
        decreases ls.len() - i,
    {
        assert(all[i as int] == ls@[i as int]@);
        match parse_gem_line(ls[i].as_str()) {
            Some(e) => {
                let ghost before = r.deep_view();
                r.push(e);
                assert(r.deep_view() =~= before.push(e.deep_view()));
            },
            None => {},
        }
        i += 1;
    }
    r
}

fn has_gem(entries: &Vec<GemEntry>, name: &str) -> (r: bool)
    ensures
        r == exists|i: int|
            0 <= i < entries.deep_view().len() && (#[trigger] entries.deep_view()[i]).name == name@,
{
    let mut i: usize = 0;
    while i < entries.len()
        invariant
            i <= entries.len(),
            forall|k: int| 0 <= k < i ==> (#[trigger] entries.deep_view()[k]).name != name@,
        decreases entries.len() - i,
    {
        assert(entries.deep_view()[i as int] == entries@[i as int].deep_view());
        if str_eq(entries[i].name.as_str(), name) {
            return true;
        }
        i += 1;
    }
    false
}

/// Adds a declaration of `gem_name` at the end of a text. `None` where the text
/// declares it already: then nothing is to be written.
pub fn add_gem(content: &str, gem_name: &str, version: Option<&str>) -> (r: Option<String>)
    ensures
        r.deep_view() == with_gem(
            content@,
            gem_name@,
            match version {
                Some(v) => Some(v@),
                None => None,
            },
        ),
{
    let entries = parse_content(content);
    if has_gem(&entries, gem_name) {
        return None;
    }
    let v = chars_of(content);
    let mut end: usize = v.len();
    while end > 0 && v[end - 1] == '\n'
        invariant
            end <= v.len(),
            drop_line_feeds(v@, end as int) == drop_line_feeds(v@, v@.len() as int),
        decreases end,
    {
        end -= 1;
    }
    let mut out = string_of_range(&v, 0, end);
    out.push('\n');
    out.append("gem '");
    out.append(gem_name);
    match version {
        Some(ver) => {
            out.append("', '");
            out.append(ver);
            out.append("'\n");
        },
        None => {
            out.append("'\n");
        },
    }
    Some(out)
}

/// Takes the lines that declare `gem_name` out of a text. `None` where no line
/// declares it: then nothing is to be written.
pub fn remove_gem(content: &str, gem_name: &str) -> (r: Option<String>)
    ensures
        r.deep_view() == without_gem(content@, gem_name@),
{
    let ls = split_lines(content);
    let ghost all = lines(content@);
    let mut kept: Vec<String> = Vec::new();
    let mut i: usize = 0;
    assert(kept.deep_view() =~= Seq::<Seq<char>>::empty());
    while i < ls.len()
        invariant
            i <= ls.len(),
            all == ls.deep_view(),
            kept.deep_view() == lines_without(all, gem_name@, i as int),
            kept.len() <= i,
        decreases ls.len() - i,
    {
        assert(all[i as int] == ls@[i as int]@);
        let declared = match parse_gem_line(ls[i].as_str()) {
            Some(e) => str_eq(e.name.as_str(), gem_name),
            None => false,
        };
        if !declared {
            let ghost before = kept.deep_view();
            kept.push(ls[i].clone());
            assert(kept.deep_view() =~= before.push(ls@[i as int]@));
        }
        i += 1;
    }
    if kept.len() == ls.len() {
        return None;
    }
    let sep = String::from_str("\n");
    proof {
        reveal_strlit("\n");
        assert(sep@ =~= seq!['\n']);
    }
    let mut out = join_strings(kept.as_slice(), sep.as_str());
    let chars = chars_of(out.as_str());
    if !(chars.len() > 0 && chars[chars.len() - 1] == '\n') {
        out.push('\n');
    }
    Some(out)
}

} // verus!
