//! An HTML page that lists a directory tree as nested lists.
use vstd::prelude::*;

verus! {

broadcast use vstd::std_specs::vec::axiom_vec_index_decreases;

pub struct Directory {
    pub entries: Vec<DirectoryEntry>,
}

pub struct DirectoryEntry {
    pub name: String,
    pub subdirectory: Option<Box<Directory>>,
    pub file: Option<File>,
}

pub struct File {
    pub name: String,
}

/// Two spaces per level.
pub open spec fn indent(depth: nat) -> Seq<char>
    decreases depth,
{
    if depth == 0 {
        Seq::empty()
    } else {
        indent((depth - 1) as nat) + "  "@
    }
}

/// How deep subdirectories go below `d`, from entry `i` on.
pub open spec fn nesting_from(d: Directory, i: int) -> nat
    decreases d, d.entries@.len() - i,
{
    if i < 0 || i >= d.entries@.len() {
        0
    } else {
        let here = match d.entries[i].subdirectory {
            Some(sub) => 1 + nesting_from(*sub, 0),
            None => 0,
        };
        let later = nesting_from(d, i + 1);
        if here > later {
            here
        } else {
            later
        }
    }
}

/// The list items for the entries of `d` from `i` on, at `depth`.
pub open spec fn items_html(d: Directory, depth: nat, i: int) -> Seq<char>
    decreases d, d.entries@.len() - i,
{
    if i < 0 || i >= d.entries@.len() {
        Seq::empty()
    } else {
        let e = d.entries[i];
        let inner = match e.subdirectory {
            Some(sub) => list_of(items_html(*sub, depth + 1, 0), depth + 1),
            None => file_html(e, depth),
        };
        item_html(e.name@, inner, depth) + items_html(d, depth, i + 1)
    }
}

/// What an entry without a subdirectory shows below its name.
pub open spec fn file_html(e: DirectoryEntry, depth: nat) -> Seq<char> {
    match e.file {
        Some(f) => indent(depth) + "<p>File: "@ + f.name@ + "</p>\n"@,
        None => Seq::empty(),
    }
}

/// What an entry shows below its name: its subdirectory's list, or its
/// file.
pub open spec fn inner_html(e: DirectoryEntry, depth: nat) -> Seq<char> {
    match e.subdirectory {
        Some(sub) => list_of(items_html(*sub, depth + 1, 0), depth + 1),
        None => file_html(e, depth),
    }
}

/// One list item: the entry's name in bold, then what it holds.
pub open spec fn item_html(name: Seq<char>, inner: Seq<char>, depth: nat) -> Seq<char> {
    let ind = indent(depth);
    ind + "<li>\n"@ + ind + "<strong>"@ + name + "</strong>\n"@ + inner + ind + "</li>\n"@
}

/// `items` inside `<ul>` and `</ul>` lines at `depth`.
pub open spec fn list_of(items: Seq<char>, depth: nat) -> Seq<char> {
    indent(depth) + "<ul>\n"@ + items + indent(depth) + "</ul>\n"@
}

pub open spec fn page_head() -> Seq<char> {
    "<!DOCTYPE html>\n"@ + "<html lang=\"en\">\n"@ + "<head>\n"@ + "<meta charset=\"UTF-8\">\n"@
        + "<meta name=\"viewport\" content=\"width=device-width, initial-scale=1.0\">\n"@
        + "<title>Directory Structure</title>\n"@ + "</head>\n"@ + "<body>\n"@
}

pub open spec fn page_tail() -> Seq<char> {
    "</body>\n"@ + "</html>\n"@
}

fn push_indent(html: &mut String, depth: usize)
    ensures
        final(html)@ == old(html)@ + indent(depth as nat),
{
    let mut k: usize = 0;
    while k < depth
        invariant
            k <= depth,
            html@ == old(html)@ + indent(k as nat),
        decreases depth - k,
    {
        html.append("  ");
        assert(html@ =~= old(html)@ + indent((k + 1) as nat));
        k = k + 1;
    }
}

fn generate_html_for_directory(html: &mut String, directory: &Directory, depth: usize)
    requires
        depth + nesting_from(*directory, 0) <= usize::MAX,
    ensures
        final(html)@ == old(html)@ + list_of(items_html(*directory, depth as nat, 0), depth as nat),
    decreases directory,
{
    push_indent(html, depth);
    html.append("<ul>\n");
    let ghost start = html@;
    let mut i: usize = 0;
    while i < directory.entries.len()
        invariant
            i <= directory.entries@.len(),
            depth + nesting_from(*directory, 0) <= usize::MAX,
            nesting_from(*directory, i as int) <= nesting_from(*directory, 0),
            start + items_html(*directory, depth as nat, 0) == html@ + items_html(
                *directory,
                depth as nat,
                i as int,
            ),
        decreases directory.entries@.len() - i,
    {
        let entry = &directory.entries[i];
        let ghost before = html@;
        push_indent(html, depth);
        html.append("<li>\n");
        push_indent(html, depth);
        html.append("<strong>");
        html.append(entry.name.as_str());
        html.append("</strong>\n");
        let ghost mid = html@;
        let ghost inner = inner_html(*entry, depth as nat);
        match &entry.subdirectory {
            Some(sub) => {
                assert(decreases_to!(*directory => directory.entries[i as int]));
                generate_html_for_directory(html, sub, depth + 1);
            },
            None => match &entry.file {
                Some(f) => {
                    push_indent(html, depth);
                    html.append("<p>File: ");
                    html.append(f.name.as_str());
                    html.append("</p>\n");
                },
                None => {},
            },
        }
        assert(html@ =~= mid + inner);
        push_indent(html, depth);
        html.append("</li>\n");
        assert(html@ =~= before + item_html(entry.name@, inner, depth as nat));
        i = i + 1;
    }
    push_indent(html, depth);
    html.append("</ul>\n");
}

/// A whole HTML page listing `directory`.
pub fn directory_to_html(directory: &Directory) -> (r: String)
    requires
        nesting_from(*directory, 0) <= usize::MAX,
    ensures
        r@ == page_head() + list_of(items_html(*directory, 0, 0), 0) + page_tail(),
{
    let mut html = String::new();
    html.append("<!DOCTYPE html>\n");
    html.append("<html lang=\"en\">\n");
    html.append("<head>\n");
    html.append("<meta charset=\"UTF-8\">\n");
    html.append("<meta name=\"viewport\" content=\"width=device-width, initial-scale=1.0\">\n");
    html.append("<title>Directory Structure</title>\n");
    html.append("</head>\n");
    html.append("<body>\n");
    generate_html_for_directory(&mut html, directory, 0);
    html.append("</body>\n");
    html.append("</html>\n");
    html
}

} // verus!
