//! Where the context block goes: a file, the console or the clipboard.
use vstd::prelude::*;
use vstd::string::StringExecFns;

verus! {

/// Writes to the file at `path`.
pub struct FileWriter {
    path: String,
}

impl FileWriter {
    pub closed spec fn path_spec(&self) -> Seq<char> {
        self.path@
    }

    pub fn new(path: String) -> (r: FileWriter)
        ensures
            r.path_spec() == path@,
    {
        FileWriter { path }
    }

    pub fn path(&self) -> (r: &String)
        ensures
            r@ == self.path_spec(),
    {
        &self.path
    }
}

/// Writes to standard output.
pub struct ConsoleWriter;

/// Copies to the system clipboard.
pub struct ClipboardWriter;

/// The sink that the configuration picks.
pub enum Writer {
    File(FileWriter),
    Console(ConsoleWriter),
    Clipboard(ClipboardWriter),
}

/// The clipboard when asked for, else the file when a path is given, else the console.
pub fn create_writer(output_path: &Option<String>, clipboard_output: bool) -> (w: Writer)
    ensures
        clipboard_output ==> w is Clipboard,
        !clipboard_output ==> match output_path {
            Some(p) => match w {
                Writer::File(f) => f.path_spec() == p@,
                _ => false,
            },
            None => w is Console,
        },
{
    if clipboard_output {
        return Writer::Clipboard(ClipboardWriter);
    }
    match output_path {
        Some(path) => Writer::File(FileWriter::new(path.clone())),
        None => Writer::Console(ConsoleWriter),
    }
}

/// The first `limit` characters of `content` followed by `...`, or all of it
/// where it is no longer than that.
pub open spec fn preview_of(content: Seq<char>, limit: nat) -> Seq<char> {
    if content.len() > limit {
        content.take(limit as int) + "..."@
    } else {
        content
    }
}

/// A preview of copied text, cut at a character boundary.
pub fn clipboard_preview(content: &str, limit: usize) -> (r: String)
    ensures
        r@ == preview_of(content@, limit as nat),
{
    if content.unicode_len() > limit {
        let head = content.substring_char(0, limit);
        let mut r = String::from_str(head);
        r.append("...");
        assert(content@.subrange(0, limit as int) =~= content@.take(limit as int));
        r
    } else {
        String::from_str(content)
    }
}

} // verus!
