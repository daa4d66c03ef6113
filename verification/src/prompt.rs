//! User-defined prompt.
use vstd::prelude::*;
use vstd::string::*;

verus! {

/// User-defined prompt.
///
/// A static prompt holds a string. The prefix and suffix are meant for key
/// bindings to change the prompt (for instance the mode in vi).
pub struct Prompt {
    pub prefix: Option<String>,
    pub prompt: String,
    pub suffix: Option<String>,
}

/// The characters of an optional part of the prompt; nothing when unset.
pub open spec fn part(o: Option<String>) -> Seq<char> {
    match o {
        Some(s) => s@,
        None => Seq::empty(),
    }
}

impl Prompt {
    /// Constructs a static prompt.
    pub fn from(prompt: &str) -> (r: Prompt)
        ensures
            r.prompt@ == prompt@,
            r.prefix is None,
            r.suffix is None,
    {
        Prompt { prefix: None, prompt: prompt.to_owned(), suffix: None }
    }

    /// The prefix, or the empty string when unset.
    pub fn prefix(&self) -> (r: &str)
        ensures
            r@ == part(self.prefix),
    {
        match &self.prefix {
            Some(prefix) => prefix.as_str(),
            None => {
                proof {
                    reveal_strlit("");
                }
                ""
            },
        }
    }

    /// The suffix, or the empty string when unset.
    pub fn suffix(&self) -> (r: &str)
        ensures
            r@ == part(self.suffix),
    {
        match &self.suffix {
            Some(suffix) => suffix.as_str(),
            None => {
                proof {
                    reveal_strlit("");
                }
                ""
            },
        }
    }

    /// The whole prompt: prefix, prompt and suffix.
    pub fn to_string(&self) -> (r: String)
        ensures
            r@ == part(self.prefix) + self.prompt@ + part(self.suffix),
    {
        let mut s = String::new();
        s.append(self.prefix());
        s.append(self.prompt.as_str());
        s.append(self.suffix());
        s
    }
}

} // verus!
