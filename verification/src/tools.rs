//! The write tool and the language-server diagnostics tool: their limits,
//! checks and reports.

use vstd::prelude::*;

use crate::text::{chars_of, decimal, push_chars, push_decimal, push_str, trim_start_seq};

verus! {

/// The largest file the write tool creates when no limit is configured:
/// one mebibyte.
pub const DEFAULT_MAX_TEXT_SIZE: u64 = 1048576;

/// What the write tool says of itself.
pub open spec fn write_description_text() -> Seq<char> {
    "Create a new file with the given content. Fails if the file already exists \u{2014} use edit for existing files. Automatically creates parent directories."@
}

/// The write tool. The permission checker, the ask channel and the
/// language-server manager are the application's types, carried through.
pub struct WriteTool<P, A, L> {
    pub permission: Option<P>,
    pub ask_tx: Option<A>,
    pub max_text_file_size: u64,
    /// When set, written files are synced to their language server and the
    /// diagnostics that follow are appended to the result.
    pub lsp: Option<L>,
}

impl<P, A, L> WriteTool<P, A, L> {
    /// A write tool with the given size limit, or the default one.
    pub fn new(permission: Option<P>, ask_tx: Option<A>, max_text_file_size: Option<u64>) -> (r: Self)
        ensures
            r.permission == permission,
            r.ask_tx == ask_tx,
            r.max_text_file_size == match max_text_file_size {
                Some(m) => m,
                None => DEFAULT_MAX_TEXT_SIZE,
            },
            r.lsp is None,
    {
        WriteTool {
            permission,
            ask_tx,
            max_text_file_size: match max_text_file_size {
                Some(m) => m,
                None => DEFAULT_MAX_TEXT_SIZE,
            },
            lsp: None,
        }
    }

    /// The same tool reporting diagnostics through `lsp`.
    pub fn with_lsp(self, lsp: Option<L>) -> (r: Self)
        ensures
            r.permission == self.permission,
            r.ask_tx == self.ask_tx,
            r.max_text_file_size == self.max_text_file_size,
            r.lsp == lsp,
    {
        WriteTool { lsp, ..self }
    }

    /// The tool description.
    pub fn description(&self) -> (r: String)
        ensures
            r@ == write_description_text(),
    {
        String::from_str(
            "Create a new file with the given content. Fails if the file already exists \u{2014} use edit for existing files. Automatically creates parent directories.",
        )
    }

    /// The schema of the tool's arguments: a required `path` and `content`.
    pub fn parameters(&self) -> (r: crate::json::Json)
        ensures
            r@ == crate::schema::write_parameters_schema(),
    {
        crate::schema::write_parameters()
    }

    /// Whether content of `bytes` bytes may be written to `path`, given
    /// whether the path exists: an existing file is never overwritten, and
    /// the content must fit the size limit.
    pub fn check_write(&self, path: &str, exists: bool, bytes: u64) -> (r: Result<(), String>)
        ensures
            match r {
                Ok(()) => !exists && bytes <= self.max_text_file_size,
                Err(m) => if exists {
                    m@ == "File '"@ + path@
                        + "' already exists. Use edit for targeted changes, or delete and recreate if a full rewrite is needed."@
                } else {
                    bytes > self.max_text_file_size && m@ == "File too large ("@ + decimal(
                        bytes as nat,
                    ) + " bytes). Maximum allowed file size is "@ + decimal(
                        self.max_text_file_size as nat,
                    ) + " bytes."@
                },
            },
    {
        if exists {
            let mut m = String::from_str("File '");
            push_str(&mut m, path);
            push_str(
                &mut m,
                "' already exists. Use edit for targeted changes, or delete and recreate if a full rewrite is needed.",
            );
            return Err(m);
        }
        if bytes > self.max_text_file_size {
            let mut m = String::from_str("File too large (");
            let mut d: Vec<char> = Vec::new();
            push_decimal(&mut d, bytes);
            push_chars(&mut m, d.as_slice());
            push_str(&mut m, " bytes). Maximum allowed file size is ");
            let mut e: Vec<char> = Vec::new();
            push_decimal(&mut e, self.max_text_file_size);
            push_chars(&mut m, e.as_slice());
            push_str(&mut m, " bytes.");
            return Err(m);
        }
        Ok(())
    }
}

/// What the write tool reports.
pub open spec fn spec_write_report(
    bytes: nat,
    path: Seq<char>,
    coaching: Option<Seq<char>>,
    diagnostics: Option<Seq<char>>,
) -> Seq<char> {
    let base = "Written "@ + decimal(bytes) + " bytes to "@ + path;
    let with_coaching = match coaching {
        Some(m) => m + "\n\n"@ + base,
        None => base,
    };
    match diagnostics {
        Some(d) => with_coaching + d,
        None => with_coaching,
    }
}

/// The report of a write: the size and path, after the permission coaching
/// message if there is one, followed by the diagnostics block if there is
/// one.
pub fn write_report(bytes: u64, path: &str, coaching: Option<&str>, diagnostics: Option<&str>) -> (r:
    String)
    ensures
        r@ == spec_write_report(
            bytes as nat,
            path@,
            match coaching {
                Some(m) => Some(m@),
                None => None,
            },
            match diagnostics {
                Some(d) => Some(d@),
                None => None,
            },
        ),
{
    let mut out = String::new();
    match coaching {
        Some(m) => {
            push_str(&mut out, m);
            push_str(&mut out, "\n\n");
        },
        None => {},
    }
    push_str(&mut out, "Written ");
    let mut d: Vec<char> = Vec::new();
    push_decimal(&mut d, bytes);
    push_chars(&mut out, d.as_slice());
    push_str(&mut out, " bytes to ");
    push_str(&mut out, path);
    match diagnostics {
        Some(b) => push_str(&mut out, b),
        None => {},
    }
    out
}

/// The arguments of the diagnostics tool: a file, or none for all files.
#[derive(Debug, Clone)]
pub struct LspArgs {
    pub path: Option<String>,
}

/// What the diagnostics tool answers. For one file (`exists` telling
/// whether it is there): an error when it is missing, else its diagnostics
/// block without leading whitespace, or a note that it has none. For all
/// files: the block under a heading, or a note that there are none.
pub open spec fn spec_lsp_tool_output(
    path: Option<Seq<char>>,
    exists: bool,
    block: Option<Seq<char>>,
) -> Result<Seq<char>, Seq<char>> {
    match path {
        Some(p) => if !exists {
            Err("File '"@ + p + "' does not exist."@)
        } else {
            match block {
                Some(b) => Ok(trim_start_seq(b)),
                None => Ok("No diagnostics for "@ + p + "."@),
            }
        },
        None => match block {
            Some(b) => Ok("Files with diagnostics:\n"@ + b),
            None => Ok("No diagnostics."@),
        },
    }
}

/// The answer of the diagnostics tool; `path` is the expanded path asked
/// about, if any, and `block` the diagnostics found.
pub fn lsp_tool_output(path: Option<&str>, exists: bool, block: Option<&str>) -> (r: Result<String, String>)
    ensures
        match r {
            Ok(s) => spec_lsp_tool_output(
                match path {
                    Some(p) => Some(p@),
                    None => None,
                },
                exists,
                match block {
                    Some(b) => Some(b@),
                    None => None,
                },
            ) == Ok::<_, Seq<char>>(s@),
            Err(m) => spec_lsp_tool_output(
                match path {
                    Some(p) => Some(p@),
                    None => None,
                },
                exists,
                match block {
                    Some(b) => Some(b@),
                    None => None,
                },
            ) == Err::<Seq<char>, _>(m@),
        },
{
    match path {
        Some(p) => {
            if !exists {
                let mut m = String::from_str("File '");
                push_str(&mut m, p);
                push_str(&mut m, "' does not exist.");
                return Err(m);
            }
            match block {
                Some(b) => {
                    let cs = chars_of(b);
                    let mut i: usize = 0;
                    proof {
                        assert(cs@.skip(0) =~= cs@);
                    }
                    while i < cs.len() && crate::text::char_is_ws(cs[i])
                        invariant
                            0 <= i <= cs@.len(),
                            trim_start_seq(cs@) == trim_start_seq(cs@.skip(i as int)),
                        decreases cs@.len() - i,
                    {
                        proof {
                            assert(cs@.skip(i as int).drop_first() =~= cs@.skip(i + 1));
                            assert(cs@.skip(i as int)[0] == cs@[i as int]);
                        }
                        i = i + 1;
                    }
                    let rest = crate::text::slice_range(cs.as_slice(), i, cs.len());
                    proof {
                        assert(cs@.subrange(i as int, cs@.len() as int) =~= cs@.skip(i as int));
                    }
                    Ok(crate::text::string_from_chars(rest.as_slice()))
                },
                None => {
                    let mut m = String::from_str("No diagnostics for ");
                    push_str(&mut m, p);
                    push_str(&mut m, ".");
                    Ok(m)
                },
            }
        },
        None => match block {
            Some(b) => {
                let mut m = String::from_str("Files with diagnostics:\n");
                push_str(&mut m, b);
                Ok(m)
            },
            None => Ok(String::from_str("No diagnostics.")),
        },
    }
}

} // verus!
