//! Reading, writing and searching files on behalf of an agent: what is asked for and what is
//! answered.

use vstd::prelude::*;

use crate::alerting::store::rows_view;
use crate::json::{texts_view, Json, JsonView};
use crate::order::{sort_texts, sorted, text_order};
use crate::text::{
    byte_count, byte_len, complaint, contains, contains_seq, decimal_seq, join,
};
use crate::values::{
    and_member, empty_object, no_members, number_value, text_array, text_member, text_or,
    text_value, texts_value,
};

verus! {

/// How many bytes a file that is read has at most.
pub const FILE_READ_CAP: u64 = 2097152;

/// How many paths a search finds at most.
pub const SEARCH_CAP: usize = 100;

/// The text under a name that a request has to carry.
fn required(input: &Json, key: &str, complaint_text: &str) -> (r: Result<String, String>)
    ensures
        match r {
            Ok(t) => text_member(input@, key@) == Some(t@),
            Err(e) => text_member(input@, key@) is None && e@ == complaint_text@,
        },
{
    match input.text_at(key) {
        Some(t) => Ok(t.to_string()),
        None => Err(complaint_text.to_string()),
    }
}

/// The path that a request to read or write a file names.
pub fn file_path(input: &Json) -> (r: Result<String, String>)
    ensures
        match r {
            Ok(p) => text_member(input@, "path"@) == Some(p@),
            Err(e) => text_member(input@, "path"@) is None && e@
                == "invalid input: path (string) required"@,
        },
{
    required(input, "path", "invalid input: path (string) required")
}

/// Why a file is not read.
pub open spec fn read_complaint(path: Seq<char>, is_file: bool, size: u64) -> Option<Seq<char>> {
    if !is_file {
        Some("not a file: "@ + path)
    } else if size > FILE_READ_CAP {
        Some("file too large (max 2097152 bytes)"@)
    } else {
        None
    }
}

/// Checks what was found at a path that is to be read.
pub fn check_file(path: &str, is_file: bool, size: u64) -> (r: Result<(), String>)
    ensures
        complaint(r) == read_complaint(path@, is_file, size),
{
    if !is_file {
        return Err(join("not a file: ", path));
    }
    if size > FILE_READ_CAP {
        return Err("file too large (max 2097152 bytes)".to_string());
    }
    Ok(())
}

/// The answer once a file is read.
pub fn read_answer(text: &str) -> (r: Json)
    ensures
        r@ == and_member(no_members(), "text"@, JsonView::Text(text@)),
{
    empty_object().with("text", text_value(text))
}

/// What is to be written to a file: nothing where a request says nothing.
pub fn file_content(input: &Json) -> (r: String)
    ensures
        r@ == text_or(input@, "content"@, Seq::empty()),
{
    proof {
        reveal_strlit("");
        assert(""@ =~= Seq::<char>::empty());
    }
    input.text_at_or("content", "").to_string()
}

/// The answer once a file is written.
pub open spec fn written(path: Seq<char>, content: Seq<char>) -> JsonView {
    and_member(
        and_member(
            and_member(no_members(), "ok"@, JsonView::Bool(true)),
            "path"@,
            JsonView::Text(path),
        ),
        "bytes"@,
        JsonView::Number(decimal_seq(byte_count(content))),
    )
}

/// The answer once a file is written.
pub fn write_answer(path: &str, content: &str) -> (r: Json)
    ensures
        r@ == written(path@, content@),
{
    empty_object().with("ok", Json::Bool(true)).with("path", text_value(path)).with(
        "bytes",
        number_value(byte_len(content) as u64),
    )
}

/// What a directory holds.
#[derive(Debug)]
pub struct Entry {
    pub name: String,
    pub path: String,
    pub is_dir: bool,
}

/// What an [`Entry`] holds.
pub struct EntryView {
    pub name: Seq<char>,
    pub path: Seq<char>,
    pub is_dir: bool,
}

impl View for Entry {
    type V = EntryView;

    open spec fn view(&self) -> EntryView {
        EntryView { name: self.name@, path: self.path@, is_dir: self.is_dir }
    }
}

/// A search for names that contain a text.
#[derive(Debug)]
pub struct FileSearch {
    pub pattern: String,
    pub found: Vec<String>,
    /// Whether something was left out.
    pub truncated: bool,
    /// The directories that are still to be looked into; the last one comes next.
    pub pending: Vec<String>,
}

/// What a [`FileSearch`] holds.
pub struct FileSearchView {
    pub pattern: Seq<char>,
    pub found: Seq<Seq<char>>,
    pub truncated: bool,
    pub pending: Seq<Seq<char>>,
}

impl View for FileSearch {
    type V = FileSearchView;

    open spec fn view(&self) -> FileSearchView {
        FileSearchView {
            pattern: self.pattern@,
            found: texts_view(self.found@),
            truncated: self.truncated,
            pending: texts_view(self.pending@),
        }
    }
}

/// A search after one more entry of a directory.
pub open spec fn seen_entry(s: FileSearchView, e: EntryView) -> FileSearchView {
    FileSearchView {
        found: if contains_seq(e.name, s.pattern) {
            s.found.push(e.path)
        } else {
            s.found
        },
        pending: if e.is_dir {
            s.pending.push(e.path)
        } else {
            s.pending
        },
        ..s
    }
}

/// A search after the entries of a directory from the `i`th on. It leaves the directory at the first
/// hit that it has no room for.
pub open spec fn seen_entries(s: FileSearchView, entries: Seq<EntryView>, i: int) -> FileSearchView
    decreases entries.len() - i,
{
    if i < 0 || i >= entries.len() {
        s
    } else if contains_seq(entries[i].name, s.pattern) && s.found.len() >= SEARCH_CAP {
        FileSearchView { truncated: true, ..s }
    } else {
        seen_entries(seen_entry(s, entries[i]), entries, i + 1)
    }
}

/// What a search has found, as a value.
pub open spec fn search_value(s: FileSearchView) -> JsonView {
    and_member(
        and_member(no_members(), "matches"@, text_array(sorted(s.found, text_order()))),
        "truncated"@,
        JsonView::Bool(s.truncated),
    )
}

/// The directory in which a request asks to search.
pub fn search_root(input: &Json) -> (r: Result<String, String>)
    ensures
        match r {
            Ok(p) => text_member(input@, "root"@) == Some(p@),
            Err(e) => text_member(input@, "root"@) is None && e@
                == "invalid input: root (string) required"@,
        },
{
    required(input, "root", "invalid input: root (string) required")
}

impl FileSearch {
    /// A search in a directory. Complains where it is none.
    pub fn new(input: &Json, root: &str, is_dir: bool) -> (r: Result<Self, String>)
        ensures
            match r {
                Ok(s) => is_dir && s@ == (FileSearchView {
                    pattern: text_or(input@, "pattern"@, Seq::empty()),
                    found: Seq::empty(),
                    truncated: false,
                    pending: seq![root@],
                }),
                Err(e) => !is_dir && e@ == "not a directory: "@ + root@,
            },
    {
        if !is_dir {
            return Err(join("not a directory: ", root));
        }
        proof {
            reveal_strlit("");
            assert(""@ =~= Seq::<char>::empty());
        }
        let pending: Vec<String> = vec![root.to_string()];
        let found: Vec<String> = Vec::new();
        assert(texts_view(pending@) =~= seq![root@]);
        assert(texts_view(found@) =~= Seq::empty());
        Ok(
            FileSearch {
                pattern: input.text_at_or("pattern", "").to_string(),
                found,
                truncated: false,
                pending,
            },
        )
    }

    /// The directory that is looked into next.
    pub fn next_dir(&mut self) -> (r: Option<String>)
        ensures
            match r {
                Some(d) => {
                    &&& old(self)@.pending.len() > 0
                    &&& d@ == old(self)@.pending.last()
                    &&& final(self)@ == (FileSearchView {
                        pending: old(self)@.pending.drop_last(),
                        ..old(self)@
                    })
                },
                None => old(self)@.pending.len() == 0 && final(self)@ == old(self)@,
            },
    {
        let ghost before = self.pending@;
        let r: Option<String> = self.pending.pop();
        assert(r is Some ==> texts_view(self.pending@) =~= texts_view(before).drop_last());
        r
    }

    /// Takes in the entries of a directory.
    pub fn take_entries(&mut self, entries: &Vec<Entry>)
        ensures
            final(self)@ == seen_entries(old(self)@, rows_view(entries@), 0),
            old(self)@.found.len() <= SEARCH_CAP ==> final(self)@.found.len() <= SEARCH_CAP,
    {
        let ghost all = rows_view(entries@);
        let ghost start = self@;
        let mut i: usize = 0;
        while i < entries.len()
            invariant
                i <= entries@.len(),
                all == rows_view(entries@),
                start == old(self)@,
                seen_entries(start, all, 0) == seen_entries(self@, all, i as int),
                start.found.len() <= SEARCH_CAP ==> self@.found.len() <= SEARCH_CAP,
            decreases entries@.len() - i,
        {
            let e: &Entry = &entries[i];
            assert(all[i as int] == e@);
            let ghost before = self@;
            let hit: bool = contains(e.name.as_str(), self.pattern.as_str());
            if hit {
                if self.found.len() >= SEARCH_CAP {
                    self.truncated = true;
                    return ;
                }
                let ghost found = self.found@;
                self.found.push(e.path.clone());
                assert(texts_view(self.found@) =~= texts_view(found).push(e@.path));
            }
            if e.is_dir {
                let ghost pending = self.pending@;
                self.pending.push(e.path.clone());
                assert(texts_view(self.pending@) =~= texts_view(pending).push(e@.path));
            }
            assert(self@ == seen_entry(before, e@));
            i += 1;
        }
    }

    /// What the search has found, in order.
    pub fn answer(self) -> (r: Json)
        ensures
            r@ == search_value(self@),
    {
        assert(rows_view(self.found@) =~= texts_view(self.found@));
        let list: Vec<String> = sort_texts(self.found);
        assert(rows_view(list@) =~= texts_view(list@));
        empty_object().with("matches", texts_value(&list)).with(
            "truncated",
            Json::Bool(self.truncated),
        )
    }
}

} // verus!
