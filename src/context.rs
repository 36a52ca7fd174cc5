//! Loading the chosen files and assembling the context block.
use crate::controller::CancelReason;
use crate::discovery::{extension_of, path_extension};
use crate::text::{chars_of, contains, contains_exec};
use vstd::prelude::*;
use vstd::string::StringExecFns;

verus! {

/// One chosen file and its text.
#[derive(Clone, Debug)]
pub struct FileContext {
    pub path: String,
    pub content: String,
}

/// Everything one invocation was asked to do.
#[derive(Clone, Debug)]
pub struct ContextConfig {
    pub root_path: String,
    pub extensions: Vec<String>,
    pub exclude_patterns: Vec<String>,
    pub output_path: Option<String>,
    pub auto_select: bool,
    pub user_prompt: Option<String>,
    pub exclude_version_control_dir: String,
    pub apply_dot_git_ignore: bool,
    pub clipboard_output: bool,
}

/// The parts of the context block.
#[derive(Debug)]
pub struct ContextOutput {
    pub file_map: String,
    pub file_contents: String,
    pub user_instructions: String,
    pub token_count: usize,
}

/// Why no context block was produced.
#[derive(Clone, Copy, PartialEq, Eq, Structural, Debug)]
pub enum ContextError {
    /// The walk found no candidate file.
    NoFilesFound,
    /// No chosen file could be read.
    NoFilesLoaded,
    /// The selection session ended without a selection.
    Cancelled(CancelReason),
}

impl ContextError {
    pub fn message(&self) -> (r: &'static str)
        ensures
            r@ == match self {
                ContextError::NoFilesFound => "No files found matching the specified criteria"@,
                ContextError::NoFilesLoaded => "No files were selected"@,
                ContextError::Cancelled(CancelReason::NoFilesSelected) => "No files selected"@,
                ContextError::Cancelled(CancelReason::SelectionCancelled) => "Selection cancelled"@,
            },
    {
        match self {
            ContextError::NoFilesFound => "No files found matching the specified criteria",
            ContextError::NoFilesLoaded => "No files were selected",
            ContextError::Cancelled(CancelReason::NoFilesSelected) => "No files selected",
            ContextError::Cancelled(CancelReason::SelectionCancelled) => "Selection cancelled",
        }
    }

    /// A quiet outcome is a normal early exit, not a failure.
    pub fn is_quiet(&self) -> (r: bool)
        ensures
            r == (self is Cancelled),
    {
        match self {
            ContextError::Cancelled(_) => true,
            _ => false,
        }
    }
}

/// `a + b`, or the largest `usize` where the sum does not fit.
pub open spec fn sat_add(a: int, b: int) -> int {
    if a + b > usize::MAX {
        usize::MAX as int
    } else {
        a + b
    }
}

/// Whether text looks like code: a fence, an indent of four spaces, or a tab.
pub open spec fn looks_like_code(s: Seq<char>) -> bool {
    contains(s, "```"@) || contains(s, "    "@) || contains(s, "\t"@)
}

/// The estimated token count: a token per four characters, rounded up, and a
/// tenth more, rounded down, for text that looks like code.
pub open spec fn token_estimate(s: Seq<char>) -> int {
    let base = s.len() / 4 + if s.len() % 4 != 0 {
        1int
    } else {
        0int
    };
    if looks_like_code(s) {
        base + base / 10
    } else {
        base
    }
}

pub fn count_tokens(content: &str) -> (r: usize)
    ensures
        r == token_estimate(content@),
{
    let chars = chars_of(content);
    let n = chars.len();
    let base = n / 4 + if n % 4 != 0 {
        1
    } else {
        0
    };
    let fence = chars_of("```");
    let indent = chars_of("    ");
    let tab = chars_of("\t");
    if contains_exec(&chars, &fence) || contains_exec(&chars, &indent) || contains_exec(&chars, &tab) {
        base + base / 10
    } else {
        base
    }
}

/// The extension of a path as text, empty where it has none.
pub open spec fn extension_text(path: Seq<char>) -> Seq<char> {
    match extension_of(path) {
        Some(e) => e,
        None => Seq::empty(),
    }
}

/// One file's block: its path, then its text in a fence tagged with its extension.
pub open spec fn file_block(f: FileContext) -> Seq<char> {
    "\nFile: "@ + f.path@ + "\n```"@ + extension_text(f.path@) + "\n"@ + f.content@ + "\n```\n"@
}

/// The blocks of `files`, in order.
pub open spec fn file_blocks(files: Seq<FileContext>) -> Seq<char>
    decreases files.len(),
{
    if files.len() == 0 {
        Seq::empty()
    } else {
        file_blocks(files.drop_last()) + file_block(files.last())
    }
}

/// The token estimates of the contents of `files`, summed with saturation.
pub open spec fn content_tokens(files: Seq<FileContext>) -> int
    decreases files.len(),
{
    if files.len() == 0 {
        0
    } else {
        sat_add(content_tokens(files.drop_last()), token_estimate(files.last().content@))
    }
}

/// The parts of the context block for the chosen files, the file map and the
/// operator's prompt; the token count sums the estimates of all three.
pub fn build_context_output(files: Vec<FileContext>, file_map: String, user_prompt: Option<String>) -> (r:
    ContextOutput)
    ensures
        r.file_map == file_map,
        r.file_contents@ == file_blocks(files@),
        r.user_instructions@ == match user_prompt {
            Some(p) => p@,
            None => Seq::empty(),
        },
        r.token_count == sat_add(
            sat_add(content_tokens(files@), token_estimate(file_map@)),
            match user_prompt {
                Some(p) => token_estimate(p@),
                None => 0,
            },
        ),
{
    let mut file_contents = String::new();
    let mut total: usize = 0;
    let mut i: usize = 0;
    while i < files.len()
        invariant
            i <= files.len(),
            file_contents@ == file_blocks(files@.take(i as int)),
            total == content_tokens(files@.take(i as int)),
        decreases files.len() - i,
    {
        let f = &files[i];
        total = total.saturating_add(count_tokens(f.content.as_str()));
        let ext = path_extension(f.path.as_str());
        file_contents.append("\nFile: ");
        file_contents.append(f.path.as_str());
        file_contents.append("\n```");
        match &ext {
            Some(e) => file_contents.append(e.as_str()),
            None => {},
        }
        file_contents.append("\n");
        file_contents.append(f.content.as_str());
        file_contents.append("\n```\n");
        assert(files@.take(i + 1).drop_last() =~= files@.take(i as int));
        i = i + 1;
        assert(file_contents@ =~= file_blocks(files@.take(i as int)));
    }
    assert(files@.take(files.len() as int) =~= files@);
    total = total.saturating_add(count_tokens(file_map.as_str()));
    let user_instructions = match user_prompt {
        Some(p) => {
            total = total.saturating_add(count_tokens(p.as_str()));
            p
        },
        None => String::new(),
    };
    ContextOutput { file_map, file_contents, user_instructions, token_count: total }
}

/// The context block: the file map and the file contents in their tags, then
/// the operator's instructions where there are any.
pub open spec fn formatted(o: ContextOutput) -> Seq<char> {
    format_parts(o.file_map@, o.file_contents@, o.user_instructions@)
}

pub open spec fn format_parts(map: Seq<char>, contents: Seq<char>, instructions: Seq<char>) -> Seq<char> {
    let head = "<file_map>\n"@ + map + "</file_map>\n\n\n"@ + "<file_contents>"@ + contents
        + "</file_contents>"@;
    if instructions.len() == 0 {
        head
    } else {
        head + "\n\n<user_instructions>\n"@ + instructions + "\n</user_instructions>"@
    }
}

pub fn format_output(output: &ContextOutput) -> (r: String)
    ensures
        r@ == formatted(*output),
{
    let mut result = String::new();
    result.append("<file_map>\n");
    result.append(output.file_map.as_str());
    result.append("</file_map>\n\n\n");
    result.append("<file_contents>");
    result.append(output.file_contents.as_str());
    result.append("</file_contents>");
    if output.user_instructions.as_str().unicode_len() != 0 {
        result.append("\n\n<user_instructions>\n");
        result.append(output.user_instructions.as_str());
        result.append("\n</user_instructions>");
    }
    result
}

/// The files whose read succeeded, in order, each with the text read.
pub open spec fn loaded<E>(paths: Seq<String>, outcomes: Seq<Result<String, E>>) -> Seq<FileContext>
    decreases paths.len(),
{
    if paths.len() == 0 || outcomes.len() == 0 {
        Seq::empty()
    } else {
        let rest = loaded(paths.drop_last(), outcomes.drop_last());
        match outcomes.last() {
            Ok(content) => rest.push(FileContext { path: paths.last(), content }),
            Err(_) => rest,
        }
    }
}

/// Pairs each path with the outcome of reading it, keeping those read and
/// skipping those whose read failed.
pub fn collect_contexts<E>(paths: &Vec<String>, outcomes: Vec<Result<String, E>>) -> (r: Vec<FileContext>)
    requires
        outcomes.len() == paths.len(),
    ensures
        r@ == loaded(paths@, outcomes@),
{
    let mut out: Vec<FileContext> = Vec::new();
    let mut rest = outcomes;
    let mut tail: Vec<Result<String, E>> = Vec::new();
    let ghost all = rest@;
    let n = paths.len();
    let mut i: usize = 0;
    while i < n
        invariant
            n == paths.len(),
            all.len() == n,
            i <= n,
            rest@ == all.skip(i as int),
            out@ == loaded(paths@.take(i as int), all.take(i as int)),
        decreases n - i,
    {
        let outcome = rest.remove(0);
        assert(outcome == all[i as int]);
        match outcome {
            Ok(content) => {
                out.push(FileContext { path: paths[i].clone(), content });
            },
            Err(e) => {
                tail.push(Err(e));
            },
        }
        assert(paths@.take(i + 1).drop_last() =~= paths@.take(i as int));
        assert(all.take(i + 1).drop_last() =~= all.take(i as int));
        assert(rest@ =~= all.skip(i + 1));
        i = i + 1;
    }
    assert(paths@.take(n as int) =~= paths@);
    assert(all.take(n as int) =~= all);
    out
}

/// Reads `paths` with `file_reader`, keeping the files that could be read.
fn read_all<F, E>(paths: &Vec<String>, file_reader: &F) -> (r: Vec<FileContext>)
    where
        F: Fn(&String) -> Result<String, E>,
    requires
        forall|p: &String| file_reader.requires((p,)),
    ensures
        exists|outcomes: Seq<Result<String, E>>|
            {
                &&& outcomes.len() == paths.len()
                &&& forall|i: int|
                    0 <= i < paths.len() ==> file_reader.ensures((&paths@[i],), #[trigger] outcomes[i])
                &&& r@ == loaded(paths@, outcomes)
            },
{
    let mut outcomes: Vec<Result<String, E>> = Vec::new();
    let mut i: usize = 0;
    while i < paths.len()
        invariant
            forall|p: &String| file_reader.requires((p,)),
            i <= paths.len(),
            outcomes.len() == i,
            forall|j: int| 0 <= j < i ==> file_reader.ensures((&paths@[j],), #[trigger] outcomes@[j]),
        decreases paths.len() - i,
    {
        let outcome = file_reader(&paths[i]);
        outcomes.push(outcome);
        i = i + 1;
    }
    let ghost seen = outcomes@;
    let r = collect_contexts(paths, outcomes);
    assert(seen.len() == paths.len());
    r
}

/// The chosen files with their text. With no candidates there is nothing to
/// choose; with `auto` every candidate is taken; otherwise `picker` runs the
/// selection session and its outcome decides. A file whose read fails is
/// skipped.
pub fn select_files<F, E, P>(files: Vec<String>, file_reader: F, auto: bool, picker: P) -> (r: Result<
    Vec<FileContext>,
    CancelReason,
>)
    where
        F: Fn(&String) -> Result<String, E>,
        P: FnOnce(&Vec<String>) -> Result<Vec<String>, CancelReason>,
    requires
        forall|p: &String| file_reader.requires((p,)),
        picker.requires((&files,)),
    ensures
        files.len() == 0 ==> match r {
            Ok(v) => v@.len() == 0,
            Err(_) => false,
        },
        files.len() > 0 && auto ==> match r {
            Ok(v) => exists|outcomes: Seq<Result<String, E>>|
                {
                    &&& outcomes.len() == files.len()
                    &&& forall|i: int|
                        0 <= i < files.len() ==> file_reader.ensures((&files@[i],), #[trigger] outcomes[i])
                    &&& v@ == loaded(files@, outcomes)
                },
            Err(_) => false,
        },
        files.len() > 0 && !auto ==> exists|picked: Result<Vec<String>, CancelReason>|
            {
                &&& picker.ensures((&files,), picked)
                &&& match picked {
                    Err(reason) => r == Err::<Vec<FileContext>, CancelReason>(reason),
                    Ok(paths) => match r {
                        Ok(v) => exists|outcomes: Seq<Result<String, E>>|
                            {
                                &&& outcomes.len() == paths.len()
                                &&& forall|i: int|
                                    0 <= i < paths.len() ==> file_reader.ensures(
                                        (&paths@[i],),
                                        #[trigger] outcomes[i],
                                    )
                                &&& v@ == loaded(paths@, outcomes)
                            },
                        Err(_) => false,
                    },
                }
            },
{
    if files.len() == 0 {
        return Ok(Vec::new());
    }
    if auto {
        return Ok(read_all(&files, &file_reader));
    }
    let picked = picker(&files);
    match picked {
        Err(reason) => Err(reason),
        Ok(paths) => Ok(read_all(&paths, &file_reader)),
    }
}

/// Fails when the walk found no candidate.
pub fn check_candidates(files: &Vec<String>) -> (r: Result<(), ContextError>)
    ensures
        r == if files.len() == 0 {
            Err::<(), ContextError>(ContextError::NoFilesFound)
        } else {
            Ok(())
        },
{
    if files.len() == 0 {
        Err(ContextError::NoFilesFound)
    } else {
        Ok(())
    }
}

/// The formatted context block for the loaded files; fails when none was loaded.
pub fn assemble_context(files: Vec<FileContext>, file_map: String, user_prompt: Option<String>) -> (r:
    Result<String, ContextError>)
    ensures
        files.len() == 0 ==> r == Err::<String, ContextError>(ContextError::NoFilesLoaded),
        files.len() > 0 ==> match r {
            Ok(s) => s@ == format_parts(
                file_map@,
                file_blocks(files@),
                match user_prompt {
                    Some(p) => p@,
                    None => Seq::empty(),
                },
            ),
            Err(_) => false,
        },
{
    if files.len() == 0 {
        return Err(ContextError::NoFilesLoaded);
    }
    let output = build_context_output(files, file_map, user_prompt);
    Ok(format_output(&output))
}

} // verus!
