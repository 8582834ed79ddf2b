//! What a run of the bundler is asked to do.

use vstd::prelude::*;
use vstd::string::*;

verus! {

/// The arguments of a run.
#[derive(Debug, Clone)]
pub struct Args {
    /// The path of the entry script.
    pub input: String,
    /// The directory that the bundle is written to.
    pub output: String,
    /// Whether load arguments are resolved against the project root rather
    /// than against the directory of the file that holds the call.
    pub use_root: bool,
    /// Whether the finished bundle is minified.
    pub minify: bool,
    /// Whether the finished bundle is formatted.
    pub beautify: bool,
}

/// The pass that is run over a finished bundle.
#[derive(Debug, Clone, Copy, PartialEq, Eq, Structural)]
pub enum PostProcess {
    /// The bundle is made as small as it can be.
    Minify,
    /// The bundle is formatted.
    Beautify,
    /// The bundle is left as it is.
    Keep,
}

/// A flag as it is listed: `true` or `false`.
pub open spec fn flag_text(flag: bool) -> Seq<char> {
    if flag {
        "true"@
    } else {
        "false"@
    }
}

/// The pass that the two flags ask for. Where both are set, the bundle is
/// minified.
pub open spec fn chosen_pass(minify: bool, beautify: bool) -> PostProcess {
    if minify {
        PostProcess::Minify
    } else if beautify {
        PostProcess::Beautify
    } else {
        PostProcess::Keep
    }
}

fn flag_words(flag: bool) -> (r: String)
    ensures
        r@ == flag_text(flag),
{
    if flag {
        "true".to_owned()
    } else {
        "false".to_owned()
    }
}

impl Args {
    /// The arguments as pairs of a name and a value, in the order of the
    /// fields.
    pub fn into_iter(self) -> (r: Vec<(String, String)>)
        ensures
            r.len() == 5,
            r[0].0@ == "input"@ && r[0].1@ == self.input@,
            r[1].0@ == "output"@ && r[1].1@ == self.output@,
            r[2].0@ == "use_root"@ && r[2].1@ == flag_text(self.use_root),
            r[3].0@ == "minify"@ && r[3].1@ == flag_text(self.minify),
            r[4].0@ == "beautify"@ && r[4].1@ == flag_text(self.beautify),
    {
        let mut out: Vec<(String, String)> = Vec::new();
        out.push(("input".to_owned(), self.input));
        out.push(("output".to_owned(), self.output));
        out.push(("use_root".to_owned(), flag_words(self.use_root)));
        out.push(("minify".to_owned(), flag_words(self.minify)));
        out.push(("beautify".to_owned(), flag_words(self.beautify)));
        out
    }

    /// The pass to run over the finished bundle.
    pub fn post_process(&self) -> (r: PostProcess)
        ensures
            r == chosen_pass(self.minify, self.beautify),
    {
        if self.minify {
            PostProcess::Minify
        } else if self.beautify {
            PostProcess::Beautify
        } else {
            PostProcess::Keep
        }
    }
}

} // verus!
