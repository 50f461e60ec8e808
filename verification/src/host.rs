use vstd::prelude::*;
use vstd::string::StringExecFns;
use crate::strings::{split_on, split_text, string_views};

verus! {

/// Whether position `p` holds the first occurrence of `opt` in `v`.
pub open spec fn is_first_match(v: Seq<String>, opt: Seq<char>, p: int) -> bool {
    &&& 0 <= p < v.len()
    &&& v[p]@ == opt
    &&& forall|q: int| 0 <= q < p ==> v[q]@ != opt
}

/// Whether `opt` occurs in `v`.
pub open spec fn contains_option(v: Seq<String>, opt: Seq<char>) -> bool {
    exists|p: int| 0 <= p < v.len() && v[p]@ == opt
}

/// Whether the first occurrence of `opt` in `v`, if any, has a value after it.
pub open spec fn value_follows(v: Seq<String>, opt: Seq<char>) -> bool {
    forall|p: int| is_first_match(v, opt, p) ==> p + 1 < v.len()
}

/// The command line of the host program.
#[derive(Debug)]
pub struct Arguments {
    dedicated: bool,
    windowed: bool,
    base: Vec<String>,
}

impl Arguments {
    /// The `-dedicated` flag.
    pub closed spec fn is_dedicated(self) -> bool {
        self.dedicated
    }

    /// The `-windowed` flag.
    pub closed spec fn is_windowed(self) -> bool {
        self.windowed
    }

    /// The entries of the `-base` list, as texts.
    pub closed spec fn base_list(self) -> Seq<Seq<char>> {
        string_views(self.base@)
    }

    /// Whether `opt` is one of the arguments.
    pub fn has_option(v: &Vec<String>, opt: &str) -> (r: bool)
        ensures
            r == contains_option(v@, opt@),
    {
        let key = String::from_str(opt);
        let mut i: usize = 0;
        while i < v.len()
            invariant
                i <= v.len(),
                key@ == opt@,
                forall|q: int| 0 <= q < i ==> v@[q]@ != opt@,
            decreases v.len() - i,
        {
            if v[i] == key {
                return true;
            }
            i = i + 1;
        }
        false
    }

    /// The argument that follows the first occurrence of `opt`, if `opt`
    /// occurs.
    pub fn get_value<'a>(v: &'a Vec<String>, opt: &str) -> (r: Option<&'a String>)
        requires
            value_follows(v@, opt@),
        ensures
            match r {
                Some(s) => exists|p: int| is_first_match(v@, opt@, p) && *s == v@[p + 1],
                None => !contains_option(v@, opt@),
            },
    {
        let key = String::from_str(opt);
        let mut i: usize = 0;
        while i < v.len()
            invariant
                i <= v.len(),
                key@ == opt@,
                value_follows(v@, opt@),
                forall|q: int| 0 <= q < i ==> v@[q]@ != opt@,
            decreases v.len() - i,
        {
            if v[i] == key {
                assert(is_first_match(v@, opt@, i as int));
                return Some(&v[i + 1]);
            }
            i = i + 1;
        }
        None
    }

    /// The arguments as the host reads them: the `-dedicated` and `-windowed`
    /// flags, and the comma-separated list after `-base` (one empty entry
    /// when `-base` is absent).
    pub fn from_args(args: &Vec<String>) -> (r: Arguments)
        requires
            value_follows(args@, "-base"@),
        ensures
            r.is_dedicated() == contains_option(args@, "-dedicated"@),
            r.is_windowed() == contains_option(args@, "-windowed"@),
            contains_option(args@, "-base"@) ==> exists|p: int|
                is_first_match(args@, "-base"@, p) && r.base_list() == split_on(args@[p + 1]@, ','),
            !contains_option(args@, "-base"@) ==> r.base_list() == seq![Seq::<char>::empty()],
    {
        let dedicated = Self::has_option(args, "-dedicated");
        let windowed = Self::has_option(args, "-windowed");
        let base = match Self::get_value(args, "-base") {
            Some(value) => split_text(value.as_str(), ','),
            None => split_text("", ','),
        };
        proof {
            reveal_strlit("");
        }
        Arguments { dedicated, windowed, base }
    }

    /// Whether the host runs as a dedicated server.
    pub fn dedicated(&self) -> (r: bool)
        ensures
            r == self.is_dedicated(),
    {
        self.dedicated
    }

    /// Whether the host runs in a window.
    pub fn windowed(&self) -> (r: bool)
        ensures
            r == self.is_windowed(),
    {
        self.windowed
    }

    /// The entries of the `-base` list.
    pub fn base(&self) -> (r: &Vec<String>)
        ensures
            string_views(r@) == self.base_list(),
    {
        &self.base
    }
}

} // verus!
