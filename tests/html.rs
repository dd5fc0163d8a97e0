use http_server::html::{directory_to_html, Directory, DirectoryEntry, File};

const HEAD: &str = "<!DOCTYPE html>\n<html lang=\"en\">\n<head>\n<meta charset=\"UTF-8\">\n<meta name=\"viewport\" content=\"width=device-width, initial-scale=1.0\">\n<title>Directory Structure</title>\n</head>\n<body>\n";
const TAIL: &str = "</body>\n</html>\n";

fn file(name: &str) -> DirectoryEntry {
    DirectoryEntry {
        name: name.to_string(),
        subdirectory: None,
        file: Some(File { name: name.to_string() }),
    }
}

#[test]
fn empty_directory_is_an_empty_list() {
    let html = directory_to_html(&Directory { entries: vec![] });
    assert_eq!(html, format!("{}<ul>\n</ul>\n{}", HEAD, TAIL));
}

#[test]
fn nested_directories_are_indented() {
    let docs = DirectoryEntry {
        name: "docs".to_string(),
        subdirectory: Some(Box::new(Directory { entries: vec![file("a.txt")] })),
        file: None,
    };
    let bare = DirectoryEntry { name: "empty".to_string(), subdirectory: None, file: None };
    let html = directory_to_html(&Directory { entries: vec![docs, bare] });
    let expected = [
        "<ul>\n",
        "<li>\n<strong>docs</strong>\n",
        "  <ul>\n  <li>\n  <strong>a.txt</strong>\n  <p>File: a.txt</p>\n  </li>\n  </ul>\n",
        "</li>\n",
        "<li>\n<strong>empty</strong>\n</li>\n",
        "</ul>\n",
    ]
    .concat();
    assert_eq!(html, format!("{}{}{}", HEAD, expected, TAIL));
}
