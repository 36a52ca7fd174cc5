//! The command line surface, as plain values, and the configuration it gives.
use crate::context::ContextConfig;
use crate::text::{chars_of, split_on, trim_ws, trim_ws_bounds, views_of};
use vstd::prelude::*;

verus! {

/// The parsed command line.
pub struct Cli {
    pub command: Commands,
    pub verbose: u8,
}

pub enum Commands {
    Generate {
        path: String,
        ext: Option<String>,
        exclude: Option<String>,
        output: Option<String>,
        auto: bool,
        prompt: Option<String>,
        exclude_version_control_dir: String,
        apply_dot_git_ignore: bool,
        clipboard_output: bool,
    },
}

/// The comma-separated items of `s`, each without surrounding white space.
pub open spec fn list_items(s: Seq<char>) -> Seq<Seq<char>> {
    split_on(s, ',').map_values(|p: Seq<char>| trim_ws(p))
}

/// The items of a comma-separated list; no list gives no items.
pub fn split_list(value: &Option<String>) -> (r: Vec<String>)
    ensures
        views_of(r@) == match value {
            Some(s) => list_items(s@),
            None => Seq::empty(),
        },
{
    match value {
        None => {
            let r: Vec<String> = Vec::new();
            assert(views_of(r@) =~= Seq::<Seq<char>>::empty());
            r
        },
        Some(s) => split_items(s.as_str()),
    }
}

fn split_items(s: &str) -> (r: Vec<String>)
    ensures
        views_of(r@) == list_items(s@),
{
    let chars = chars_of(s);
    let n = chars.len();
    let mut out: Vec<String> = Vec::new();
    let mut start: usize = 0;
    let mut i: usize = 0;
    while i < n
        invariant
            n == chars.len(),
            chars@ == s@,
            start <= i <= n,
            split_on(s@.take(i as int), ',').len() == out.len() + 1,
            forall|k: int|
                0 <= k < out.len() ==> (#[trigger] views_of(out@)[k]) == trim_ws(
                    split_on(s@.take(i as int), ',')[k],
                ),
            chars@.subrange(start as int, i as int) == split_on(s@.take(i as int), ',').last(),
        decreases n - i,
    {
        assert(s@.take(i + 1).drop_last() =~= s@.take(i as int));
        if chars[i] == ',' {
            let (a, b) = trim_ws_bounds(&chars, start, i);
            let piece = String::from_str(s.substring_char(a, b));
            let ghost before = out@;
            out.push(piece);
            assert(views_of(out@) =~= views_of(before).push(piece@));
            start = i + 1;
            i = i + 1;
            assert(chars@.subrange(start as int, i as int) =~= Seq::<char>::empty());
        } else {
            i = i + 1;
            assert(chars@.subrange(start as int, i as int) =~= chars@.subrange(start as int, i - 1).push(
                chars@[i - 1],
            ));
        }
    }
    assert(s@.take(n as int) =~= s@);
    let (a, b) = trim_ws_bounds(&chars, start, n);
    let piece = String::from_str(s.substring_char(a, b));
    let ghost before = out@;
    out.push(piece);
    assert(views_of(out@) =~= views_of(before).push(piece@));
    assert(piece@ == trim_ws(split_on(s@, ',').last()));
    assert(views_of(out@) =~= list_items(s@));
    out
}

/// The configuration that a `generate` command asks for.
pub fn config_from_command(command: Commands) -> (r: ContextConfig)
    ensures
        match command {
            Commands::Generate {
                path,
                ext,
                exclude,
                output,
                auto,
                prompt,
                exclude_version_control_dir,
                apply_dot_git_ignore,
                clipboard_output,
            } => {
                &&& r.root_path == path
                &&& views_of(r.extensions@) == match ext {
                    Some(s) => list_items(s@),
                    None => Seq::empty(),
                }
                &&& views_of(r.exclude_patterns@) == match exclude {
                    Some(s) => list_items(s@),
                    None => Seq::empty(),
                }
                &&& r.output_path == output
                &&& r.auto_select == auto
                &&& r.user_prompt == prompt
                &&& r.exclude_version_control_dir == exclude_version_control_dir
                &&& r.apply_dot_git_ignore == apply_dot_git_ignore
                &&& r.clipboard_output == clipboard_output
            },
        },
{
    match command {
        Commands::Generate {
            path,
            ext,
            exclude,
            output,
            auto,
            prompt,
            exclude_version_control_dir,
            apply_dot_git_ignore,
            clipboard_output,
        } => {
            let extensions = split_list(&ext);
            let exclude_patterns = split_list(&exclude);
            ContextConfig {
                root_path: path,
                extensions,
                exclude_patterns,
                output_path: output,
                auto_select: auto,
                user_prompt: prompt,
                exclude_version_control_dir,
                apply_dot_git_ignore,
                clipboard_output,
            }
        },
    }
}

} // verus!
