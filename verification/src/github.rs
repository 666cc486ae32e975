//! Which files of a learner's cloned repository go to a review, and how their
//! text is packed under a size budget. Cloning and walking the directory tree
//! are I/O and happen around this module.

use vstd::prelude::*;
use crate::text::{chars_of, text_eq, lower_ascii, string_of, ascii_lower, push_str};

verus! {

broadcast use vstd::string::group_string_axioms;

/// Directories that never help a review and blow the size budget.
pub open spec fn skipped_dir(name: Seq<char>) -> bool {
    ||| name == ".git"@
    ||| name == "node_modules"@
    ||| name == "target"@
    ||| name == "build"@
    ||| name == "dist"@
    ||| name == "out"@
    ||| name == "vendor"@
    ||| name == ".venv"@
    ||| name == "venv"@
    ||| name == "__pycache__"@
    ||| name == ".idea"@
    ||| name == ".gradle"@
    ||| name == ".next"@
}

/// Lock files, which are large and say nothing a review needs.
pub open spec fn skipped_file(name: Seq<char>) -> bool {
    ||| name == "package-lock.json"@
    ||| name == "yarn.lock"@
    ||| name == "pnpm-lock.yaml"@
    ||| name == "Cargo.lock"@
    ||| name == "poetry.lock"@
    ||| name == "composer.lock"@
    ||| name == "go.sum"@
}

/// Extensions (in lower case) worth sending to a review.
pub open spec fn source_ext(ext: Seq<char>) -> bool {
    ||| ext == "java"@ ||| ext == "kt"@ ||| ext == "xml"@ ||| ext == "gradle"@
    ||| ext == "properties"@ ||| ext == "yml"@ ||| ext == "yaml"@ ||| ext == "sql"@
    ||| ext == "rs"@ ||| ext == "go"@ ||| ext == "py"@ ||| ext == "js"@
    ||| ext == "jsx"@ ||| ext == "ts"@ ||| ext == "tsx"@ ||| ext == "css"@
    ||| ext == "scss"@ ||| ext == "html"@ ||| ext == "json"@ ||| ext == "toml"@
    ||| ext == "sh"@ ||| ext == "ps1"@ ||| ext == "md"@ ||| ext == "dockerfile"@
    ||| ext == "tf"@ ||| ext == "cs"@ ||| ext == "rb"@ ||| ext == "php"@
}

/// `s` in ASCII lower case.
pub open spec fn lowered(s: Seq<char>) -> Seq<char> {
    s.map_values(|c: char| ascii_lower(c))
}

/// Whether a file with this name and extension is sent to a review: never a
/// lock file; always a Dockerfile or Makefile (in any ASCII case); otherwise
/// when its extension, in lower case, is a source extension.
pub open spec fn source_file(file_name: Option<Seq<char>>, extension: Option<Seq<char>>) -> bool {
    match file_name {
        Some(n) if skipped_file(n) => false,
        Some(n) if lowered(n) == "dockerfile"@ || lowered(n) == "makefile"@ => true,
        _ => match extension {
            Some(e) => source_ext(lowered(e)),
            None => false,
        },
    }
}

/// Whether a directory is walked into.
pub fn is_skipped_dir(name: &str) -> (r: bool)
    ensures
        r == skipped_dir(name@),
{
    text_eq(name, ".git") || text_eq(name, "node_modules") || text_eq(name, "target")
        || text_eq(name, "build") || text_eq(name, "dist") || text_eq(name, "out")
        || text_eq(name, "vendor") || text_eq(name, ".venv") || text_eq(name, "venv")
        || text_eq(name, "__pycache__") || text_eq(name, ".idea") || text_eq(name, ".gradle")
        || text_eq(name, ".next")
}

fn is_skipped_file(name: &str) -> (r: bool)
    ensures
        r == skipped_file(name@),
{
    text_eq(name, "package-lock.json") || text_eq(name, "yarn.lock")
        || text_eq(name, "pnpm-lock.yaml") || text_eq(name, "Cargo.lock")
        || text_eq(name, "poetry.lock") || text_eq(name, "composer.lock")
        || text_eq(name, "go.sum")
}

fn is_source_ext(ext: &str) -> (r: bool)
    ensures
        r == source_ext(ext@),
{
    text_eq(ext, "java") || text_eq(ext, "kt") || text_eq(ext, "xml") || text_eq(ext, "gradle")
        || text_eq(ext, "properties") || text_eq(ext, "yml") || text_eq(ext, "yaml")
        || text_eq(ext, "sql") || text_eq(ext, "rs") || text_eq(ext, "go") || text_eq(ext, "py")
        || text_eq(ext, "js") || text_eq(ext, "jsx") || text_eq(ext, "ts") || text_eq(ext, "tsx")
        || text_eq(ext, "css") || text_eq(ext, "scss") || text_eq(ext, "html")
        || text_eq(ext, "json") || text_eq(ext, "toml") || text_eq(ext, "sh")
        || text_eq(ext, "ps1") || text_eq(ext, "md") || text_eq(ext, "dockerfile")
        || text_eq(ext, "tf") || text_eq(ext, "cs") || text_eq(ext, "rb") || text_eq(ext, "php")
}

fn lower_text(s: &str) -> (r: String)
    ensures
        r@ == lowered(s@),
{
    string_of(&lower_ascii(&chars_of(s)))
}

/// Whether a file goes to a review, from its file name and its extension
/// (each `None` when the path has none, or it is not UTF-8).
pub fn is_source(file_name: Option<&str>, extension: Option<&str>) -> (r: bool)
    ensures
        r == source_file(
            match file_name { Some(n) => Some(n@), None => None },
            match extension { Some(e) => Some(e@), None => None },
        ),
{
    if let Some(name) = file_name {
        if is_skipped_file(name) {
            return false;
        }
        let lower = lower_text(name);
        if text_eq(lower.as_str(), "dockerfile") || text_eq(lower.as_str(), "makefile") {
            return true;
        }
    }
    match extension {
        Some(e) => {
            let lower = lower_text(e);
            is_source_ext(lower.as_str())
        },
        None => false,
    }
}

/// The byte length of a text in UTF-8, as `str::len` reports it.
pub open spec fn byte_len(s: Seq<char>) -> usize {
    vstd::utf8::encode_utf8(s).len() as usize
}

/// The header of one file in the packed sources.
pub open spec fn file_block(rel: Seq<char>, text: Seq<char>) -> Seq<char> {
    "\n\n--- "@ + rel + " ---\n"@ + text
}

/// The marker left where the size cap stopped the packing.
pub open spec fn omitted_block(rel: Seq<char>) -> Seq<char> {
    "\n\n--- "@ + rel + " (omitted: size cap reached) ---\n"@
}

/// Append one file to the packed sources when the whole text fits within
/// `cap_bytes`, or the marker that packing stopped at it. Returns whether
/// the file fitted (when it did not, nothing more is packed).
pub fn append_source(out: &mut String, rel: &str, text: &str, cap_bytes: usize) -> (fits: bool)
    ensures
        fits == (byte_len(old(out)@) + byte_len(text@) <= cap_bytes),
        final(out)@ == old(out)@ + (if fits { file_block(rel@, text@) } else { omitted_block(rel@) }),
{
    let used = out.as_str().len();
    let size = text.len();
    let fits = size <= cap_bytes && used <= cap_bytes - size;
    proof {
        reveal_strlit("\n\n--- ");
        reveal_strlit(" ---\n");
        reveal_strlit(" (omitted: size cap reached) ---\n");
    }
    push_str(out, "\n\n--- ");
    push_str(out, rel);
    if fits {
        push_str(out, " ---\n");
        push_str(out, text);
    } else {
        push_str(out, " (omitted: size cap reached) ---\n");
    }
    fits
}

} // verus!
