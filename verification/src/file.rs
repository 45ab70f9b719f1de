//! A resolved file path together with its derived base name and extension.
//!
//! A `File` is an immutable description of a path: the full path, the base
//! name (final path segment) and the extension taken from that base name.
//! Renaming is modelled as a pure step: `add_salt` moves the value forward
//! to the salted identity; performing the on-disk rename is the caller's
//! business.

use vstd::prelude::*;
use vstd::string::*;

use crate::naming::base_name_of;
use crate::naming::ext_of;
use crate::naming::has_extension_name;
use crate::naming::lemma_last_index_of;
use crate::naming::lemma_transformed_base_name_nonempty;
use crate::naming::name_start;
use crate::naming::transform;
use crate::naming::transformed_path;

verus! {

/// The extension of a base name, when it has one.
#[derive(Clone)]
pub enum Extension {
    Present(String),
    Absent,
}

impl Extension {
    /// The characters of the extension, or `None` when there is none.
    pub open spec fn spec_value(&self) -> Option<Seq<char>> {
        match self {
            Extension::Present(e) => Some(e@),
            Extension::Absent => None,
        }
    }
}

/// A path known to the caller to denote a regular file, split into full
/// path, base name and extension.
pub struct File {
    path: String,
    name: String,
    extension: Extension,
}

impl File {
    /// The full path.
    pub closed spec fn path_spec(&self) -> Seq<char> {
        self.path@
    }

    /// The base name: the final segment of the path.
    pub closed spec fn name_spec(&self) -> Seq<char> {
        self.name@
    }

    /// The extension of the base name, when it has one.
    pub closed spec fn ext_spec(&self) -> Option<Seq<char>> {
        self.extension.spec_value()
    }

    /// Well-formedness: the base name is nonempty and the name and extension
    /// fields are exactly what the path dictates.
    pub open spec fn wf(&self) -> bool {
        &&& self.name_spec() == base_name_of(self.path_spec())
        &&& self.name_spec().len() > 0
        &&& self.ext_spec() == (if has_extension_name(self.name_spec()) {
            Some(ext_of(self.name_spec()))
        } else {
            None::<Seq<char>>
        })
    }

    /// Build a `File` from a path given as a string slice.
    ///
    /// The path must end in a nonempty base name (so `""`, `"/"` and
    /// `"a/"` are excluded).  The base name is taken purely as the text
    /// after the last `/`: segments such as `"."` or `".."` are accepted
    /// as ordinary names here, where a `file_name()`-style reading of the
    /// path would reject them.
    pub fn from(file: &str) -> (f: File)
        requires
            base_name_of(file@).len() > 0,
        ensures
            f.wf(),
            f.path_spec() == file@,
    {
        File::from_path_buff(String::from_str(file))
    }

    /// Build a `File` from an owned path, deriving base name and extension.
    ///
    /// The path must end in a nonempty base name; as in [`File::from`],
    /// `"."` and `".."` count as ordinary base names under the character
    /// model of this library.
    pub fn from_path_buff(file: String) -> (f: File)
        requires
            base_name_of(file@).len() > 0,
        ensures
            f.wf(),
            f.path_spec() == file@,
    {
        let n: usize = file.as_str().unicode_len();
        let ns: usize = match crate::naming::rfind_char(file.as_str(), '/') {
            Some(i) => i + 1,
            None => 0,
        };
        proof {
            lemma_last_index_of(file@, '/');
            assert(ns == name_start(file@));
        }
        let name = String::from_str(file.as_str().substring_char(ns, n));
        proof {
            assert(name@ == base_name_of(file@));
        }
        let nl: usize = name.as_str().unicode_len();
        let mut extension = Extension::Absent;
        match crate::naming::rfind_char(name.as_str(), '.') {
            Some(d) => {
                if d >= 1 {
                    extension = Extension::Present(
                        String::from_str(name.as_str().substring_char(d + 1, nl)),
                    );
                    proof {
                        assert(has_extension_name(name@));
                        assert(extension.spec_value() == Some(ext_of(name@)));
                    }
                }
            },
            None => {},
        }
        File { path: file, name, extension }
    }

    /// The base name.
    pub fn get_name(&self) -> (r: String)
        ensures
            r@ == self.name_spec(),
    {
        self.name.clone()
    }

    /// The full path.
    pub fn get_pathbuff(&self) -> (r: String)
        ensures
            r@ == self.path_spec(),
    {
        self.path.clone()
    }

    /// The extension, when the base name has one.
    pub fn get_extension(&self) -> (r: Extension)
        ensures
            r.spec_value() == self.ext_spec(),
    {
        match &self.extension {
            Extension::Present(e) => Extension::Present(e.clone()),
            Extension::Absent => Extension::Absent,
        }
    }

    /// Whether the base name has an extension.
    pub fn have_extension(&self) -> (r: bool)
        ensures
            r == (self.ext_spec() is Some),
    {
        match &self.extension {
            Extension::Present(_) => true,
            Extension::Absent => false,
        }
    }

    /// The full salted path: the parent prefix unchanged, the salt appended
    /// to the stem of the base name.
    fn salt(&self, salt: &String) -> (r: String)
        ensures
            r@ == transformed_path(self.path_spec(), salt@),
    {
        transform(self.path.as_str(), salt.as_str())
    }

    /// Move this value forward to the salted identity: the path becomes the
    /// transformed path, and base name and extension are re-derived from it.
    /// The caller is expected to rename the file on disk accordingly.  A
    /// salt with a path separator is allowed only as long as the salted
    /// path still ends in a nonempty base name.
    pub fn add_salt(&mut self, salt: &String)
        requires
            old(self).wf(),
            !salt@.contains('/') || base_name_of(
                transformed_path(old(self).path_spec(), salt@),
            ).len() > 0,
        ensures
            final(self).wf(),
            final(self).path_spec() == transformed_path(old(self).path_spec(), salt@),
    {
        proof {
            if !salt@.contains('/') {
                lemma_transformed_base_name_nonempty(self.path_spec(), salt@);
            }
        }
        let final_name = self.salt(salt);
        let new_file = File::from(final_name.as_str());
        self.name = new_file.name;
        self.path = new_file.path;
        self.extension = new_file.extension;
    }
}

} // verus!
