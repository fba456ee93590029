//! Startup options: where the memory file lives.
//!
//! The only option is `--file <path>`, given at most once; without it the
//! memory lives in `.engram/memory.json` under the startup directory.
use crate::text::{is_blank, is_blank_text};
use vstd::prelude::*;
use vstd::string::*;

verus! {

/// Where the memory file lives.
#[derive(Debug, Clone, PartialEq, Eq)]
pub struct MemoryFileOptions {
    pub file_path: String,
}

/// The path that `Path::join` makes of `base` and `child` on this platform.
pub uninterp spec fn path_join(base: Seq<char>, child: Seq<char>) -> Seq<char>;

/// `std::path::Path::join`: `base` with `child` adjoined (the platform's
/// separator between them, or `child` itself when it is absolute). The
/// contract names the result and says nothing more about it.
#[verifier::external_body]
fn join_path(base: &str, child: &str) -> (joined: String)
    ensures
        joined@ == path_join(base@, child@),
{
    std::path::Path::new(base).join(child).to_string_lossy().into_owned()
}

/// The default memory file under the startup directory.
pub open spec fn default_memory_file(startup_directory: Seq<char>) -> Seq<char> {
    path_join(path_join(startup_directory, ".engram"@), "memory.json"@)
}

pub open spec fn empty_startup_directory_message() -> Seq<char> {
    "Startup directory must not be empty."@
}

pub open spec fn repeated_file_option_message() -> Seq<char> {
    "The '--file' option may only be specified once."@
}

pub open spec fn missing_file_value_message() -> Seq<char> {
    "Missing value for '--file'. Expected '--file <path>'."@
}

pub open spec fn blank_file_value_message() -> Seq<char> {
    "The '--file' value must not be empty or whitespace."@
}

pub open spec fn unknown_argument_message(argument: Seq<char>) -> Seq<char> {
    "Unknown argument '"@ + argument + "'. Expected '--file <path>'."@
}

/// The file path configured by the arguments (`None` when none is), or the
/// message of the first argument error. The arguments are read from the
/// front: `--file` takes the next argument as its value.
pub open spec fn configured_file(args: Seq<Seq<char>>) -> Result<Option<Seq<char>>, Seq<char>> {
    if args.len() == 0 {
        Ok(None)
    } else if args[0] != "--file"@ {
        Err(unknown_argument_message(args[0]))
    } else if args.len() == 1 {
        Err(missing_file_value_message())
    } else if is_blank(args[1]) {
        Err(blank_file_value_message())
    } else if args.len() == 2 {
        Ok(Some(args[1]))
    } else if args[2] != "--file"@ {
        Err(unknown_argument_message(args[2]))
    } else {
        Err(repeated_file_option_message())
    }
}

/// The arguments as plain characters.
pub open spec fn arguments_view(arguments: Seq<String>) -> Seq<Seq<char>> {
    arguments.map_values(|a: String| a@)
}

/// Reads the startup options. An empty startup directory is refused; so is
/// any argument but `--file <path>` given once with a non-blank path.
pub fn parse_memory_file_options(arguments: &[String], startup_directory: &str) -> (r: Result<
    MemoryFileOptions,
    String,
>)
    ensures
        startup_directory@.len() == 0 ==> (r matches Err(m) && m@
            == empty_startup_directory_message()),
        startup_directory@.len() > 0 ==> match configured_file(arguments_view(arguments@)) {
            Err(message) => r matches Err(m) && m@ == message,
            Ok(Some(path)) => r matches Ok(options) && options.file_path@ == path,
            Ok(None) => r matches Ok(options) && options.file_path@ == default_memory_file(
                startup_directory@,
            ),
        },
{
    if startup_directory.unicode_len() == 0 {
        return Err(String::from_str("Startup directory must not be empty."));
    }
    let ghost args = arguments_view(arguments@);
    let file_flag = String::from_str("--file");
    let mut configured_file_path: Option<String> = None;
    let mut index: usize = 0;
    while index < arguments.len()
        invariant
            args == arguments_view(arguments@),
            file_flag@ == "--file"@,
            startup_directory@.len() > 0,
            index == 0 ==> configured_file_path is None,
            index != 0 ==> index == 2 && args.len() >= 2 && args[0] == "--file"@ && !is_blank(
                args[1],
            ) && (configured_file_path matches Some(p) && p@ == args[1]),
        decreases arguments@.len() - index,
    {
        assert(args[index as int] == arguments@[index as int]@);
        if arguments[index] == file_flag {
            if configured_file_path.is_some() {
                return Err(String::from_str("The '--file' option may only be specified once."));
            }
            if index + 1 >= arguments.len() {
                return Err(String::from_str("Missing value for '--file'. Expected '--file <path>'."));
            }
            let value = &arguments[index + 1];
            assert(args[index + 1] == value@);
            if is_blank_text(value.as_str()) {
                return Err(String::from_str("The '--file' value must not be empty or whitespace."));
            }
            configured_file_path = Some(value.clone());
            index = index + 2;
        } else {
            let message = String::from_str("Unknown argument '").concat(
                arguments[index].as_str(),
            ).concat("'. Expected '--file <path>'.");
            return Err(message);
        }
    }
    let file_path = match configured_file_path {
        Some(path) => path,
        None => {
            let directory = join_path(startup_directory, ".engram");
            join_path(directory.as_str(), "memory.json")
        },
    };
    Ok(MemoryFileOptions { file_path })
}

} // verus!
