//! `omni context <file>`: which files one file imports, which import it, and
//! whether this session keeps touching it. The import graph is the caller's;
//! this module picks the file argument, looks the file up among the session's
//! hot files and writes the report, so the CLI and any future caller cannot
//! render it two ways.
use vstd::prelude::*;

use crate::text::{chars_eq, chars_of, decimal, decimal_string, has_prefix, starts_with};

verus! {

/// How many names a list shows before it stops.
pub const LIST_LIMIT: usize = 8;

/// `items` joined with `", "`.
pub open spec fn join_commas(items: Seq<Seq<char>>) -> Seq<char>
    decreases items.len(),
{
    if items.len() == 0 {
        seq![]
    } else if items.len() == 1 {
        items[0]
    } else {
        join_commas(items.drop_last()) + ", "@ + items.last()
    }
}

/// A list of names as the report shows it: the first eight, comma-separated,
/// or `none detected`.
pub open spec fn name_list(items: Seq<Seq<char>>) -> Seq<char> {
    if items.len() == 0 {
        "none detected"@
    } else if items.len() <= LIST_LIMIT {
        join_commas(items)
    } else {
        join_commas(items.take(LIST_LIMIT as int))
    }
}

/// The views of a sequence of strings.
pub open spec fn names(items: Seq<String>) -> Seq<Seq<char>> {
    items.map_values(|s: String| s@)
}

/// A list of names as the report shows it.
pub fn list_names(items: &[String]) -> (s: String)
    ensures
        s@ == name_list(names(items@)),
{
    if items.len() == 0 {
        return String::from_str("none detected");
    }
    let upto = if items.len() < LIST_LIMIT {
        items.len()
    } else {
        LIST_LIMIT
    };
    let ghost all = names(items@);
    let mut s = String::new();
    let mut k: usize = 0;
    assert(all.take(0) =~= seq![]);
    while k < upto
        invariant
            k <= upto <= items.len(),
            all == names(items@),
            s@ == join_commas(all.take(k as int)),
        decreases upto - k,
    {
        assert(all.take(k + 1).drop_last() =~= all.take(k as int));
        if k > 0 {
            s.append(", ");
        }
        s.append(items[k].as_str());
        k = k + 1;
    }
    assert(upto == items.len() ==> all.take(upto as int) =~= all);
    s
}

/// Whether a file counted hot this session, and how often.
pub open spec fn hot_text(hot_count: u64) -> Seq<char> {
    if hot_count > 0 {
        "yes ("@ + decimal(hot_count as nat) + "x)"@
    } else {
        "no"@
    }
}

/// The context report of one file: the path the graph resolved, what it
/// imports, what imports it, and its hot count this session.
pub open spec fn context_report(
    file_path: Seq<char>,
    imports: Seq<Seq<char>>,
    imported_by: Seq<Seq<char>>,
    hot_count: u64,
) -> Seq<char> {
    "OMNI Context for "@ + file_path + "\nImports: "@ + name_list(imports) + "\nImported by: "@
        + name_list(imported_by) + "\nHot in session: "@ + hot_text(hot_count) + "\n"@
}

/// The hot count of `path` in a session's table of hot files: the count of
/// its first entry, or 0 where it has none.
pub open spec fn hot_in(table: Seq<(String, u64)>, path: Seq<char>) -> u64
    decreases table.len(),
{
    if table.len() == 0 {
        0
    } else if table[0].0@ == path {
        table[0].1
    } else {
        hot_in(table.drop_first(), path)
    }
}

/// The hot count of `path` this session: 0 with no session.
pub open spec fn session_hot_count(hot_files: Option<Seq<(String, u64)>>, path: Seq<char>) -> u64 {
    match hot_files {
        Some(t) => hot_in(t, path),
        None => 0,
    }
}

/// The count `hot_files` holds for `path`.
pub fn hot_count(hot_files: Option<&[(String, u64)]>, path: &str) -> (n: u64)
    ensures
        n == session_hot_count(
            match hot_files {
                Some(t) => Some(t@),
                None => None,
            },
            path@,
        ),
{
    let table = match hot_files {
        Some(t) => t,
        None => return 0,
    };
    let p = chars_of(path);
    let mut i: usize = 0;
    assert(table@.skip(0) =~= table@);
    while i < table.len()
        invariant
            i <= table.len(),
            p@ == path@,
            hot_files == Some(table),
            hot_in(table@, path@) == hot_in(table@.skip(i as int), path@),
        decreases table.len() - i,
    {
        assert(table@.skip(i as int).drop_first() =~= table@.skip(i + 1));
        assert(table@.skip(i as int)[0] == table@[i as int]);
        let k = chars_of(table[i].0.as_str());
        if chars_eq(k.as_slice(), p.as_slice()) {
            assert(table@.skip(i as int)[0] == table@[i as int]);
            return table[i].1;
        }
        i = i + 1;
    }
    0
}

/// The context report of one file, named by the path the graph resolved for
/// it. The session's hot files are looked up by that path, not the one
/// typed, since two spellings name one file.
pub fn report(
    file_path: &str,
    imports: &[String],
    imported_by: &[String],
    hot_files: Option<&[(String, u64)]>,
) -> (s: String)
    ensures
        s@ == context_report(
            file_path@,
            names(imports@),
            names(imported_by@),
            session_hot_count(
                match hot_files {
                    Some(t) => Some(t@),
                    None => None,
                },
                file_path@,
            ),
        ),
{
    let hot = hot_count(hot_files, file_path);
    let mut s = String::from_str("OMNI Context for ");
    s.append(file_path);
    s.append("\nImports: ");
    let a = list_names(imports);
    s.append(a.as_str());
    s.append("\nImported by: ");
    let b = list_names(imported_by);
    s.append(b.as_str());
    s.append("\nHot in session: ");
    if hot > 0 {
        s.append("yes (");
        let d = decimal_string(hot);
        s.append(d.as_str());
        s.append("x)");
    } else {
        s.append("no");
    }
    s.append("\n");
    s
}

/// The file `omni context` is asked about: the first argument after the
/// subcommand that is not a flag.
pub open spec fn is_file_arg(args: Seq<String>, k: int) -> bool {
    2 <= k < args.len() && !has_prefix(args[k]@, "-"@)
}

/// The index of the file argument, if there is one.
pub fn file_arg(args: &[String]) -> (r: Option<usize>)
    ensures
        match r {
            Some(k) => is_file_arg(args@, k as int) && forall|j: int|
                2 <= j < k ==> !#[trigger] is_file_arg(args@, j),
            None => forall|j: int| 0 <= j < args@.len() ==> !#[trigger] is_file_arg(args@, j),
        },
{
    let mut k: usize = 2;
    while k < args.len()
        invariant
            2 <= k,
            forall|j: int| 2 <= j < k ==> !#[trigger] is_file_arg(args@, j),
        decreases args.len() - k,
    {
        if !starts_with(chars_of(args[k].as_str()).as_slice(), "-") {
            return Some(k);
        }
        k = k + 1;
    }
    None
}

/// The opening title of a report view: `OMNI`, or `OMNI · view`.
pub open spec fn view_title(view: Option<Seq<char>>) -> Seq<char> {
    match view {
        Some(v) => "OMNI · "@ + v,
        None => "OMNI"@,
    }
}

/// The opening title of a report view.
pub fn header_title(view: Option<&str>) -> (s: String)
    ensures
        s@ == view_title(
            match view {
                Some(v) => Some(v@),
                None => None,
            },
        ),
{
    match view {
        Some(v) => {
            let mut s = String::from_str("OMNI · ");
            s.append(v);
            s
        },
        None => String::from_str("OMNI"),
    }
}

} // verus!
