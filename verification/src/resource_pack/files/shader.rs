//! Core shader sources.
use crate::options::{Options, ShaderCompression};
use crate::text::join3;
use crate::{LogLevel, LogMessage};
use vstd::prelude::*;

verus! {

#[derive(Clone, Debug)]
pub struct Shader {
    pub path: String,
    pub content: String,
}

/// The text of the warning for a shader that could not be minified.
pub open spec fn minify_warning(path: Seq<char>, error: Seq<char>) -> Seq<char> {
    "Could not minify shader '"@ + path + "'. Skipping optimization. Error: "@ + error
}

impl Shader {
    pub fn new(path: &str, content: &str) -> (r: Self)
        ensures
            r.path@ == path@,
            r.content@ == content@,
    {
        Shader { path: path.to_owned(), content: content.to_owned() }
    }

    /// How the options ask shaders to be minified: `None` when they are
    /// kept as they are, else whether names are shortened too.
    pub fn minify_mode(options: &Options) -> (r: Option<bool>)
        ensures
            r == match options.shader_compression {
                ShaderCompression::Disabled => None,
                ShaderCompression::Minify => Some(false),
                ShaderCompression::MinifyAndObfuscate => Some(true),
            },
    {
        match options.shader_compression {
            ShaderCompression::Disabled => None,
            ShaderCompression::Minify => Some(false),
            ShaderCompression::MinifyAndObfuscate => Some(true),
        }
    }

    /// The source to write, given the outcome of minifying it: the
    /// minified source when it is not empty and differs from the original,
    /// else the original; a failure keeps the original and is reported.
    pub fn finish(&self, minified: Result<String, String>) -> (r: (String, Option<LogMessage>))
        ensures
            match minified {
                Ok(m) => r.0@ == (if m@.len() > 0 && m@ != self.content@ {
                    m@
                } else {
                    self.content@
                }) && r.1 is None,
                Err(e) => {
                    &&& r.0@ == self.content@
                    &&& r.1 matches Some(msg) && msg.level == LogLevel::Warning && msg.message@ == minify_warning(
                        self.path@,
                        e@,
                    )
                },
            },
    {
        match minified {
            Ok(m) => {
                if !m.as_str().is_empty() && m != self.content {
                    (m, None)
                } else {
                    (self.content.clone(), None)
                }
            },
            Err(e) => {
                let head = join3("Could not minify shader '", self.path.as_str(), "'. Skipping optimization. Error: ");
                let message = join3(head.as_str(), e.as_str(), "");
                proof {
                    reveal_strlit("");
                }
                assert(message@ =~= minify_warning(self.path@, e@));
                (self.content.clone(), Some(LogMessage { level: LogLevel::Warning, message }))
            },
        }
    }
}

} // verus!
