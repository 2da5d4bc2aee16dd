//! Where a restore finds its files: the manifest among the files of a
//! directory, and the name of the directory that a repository is cloned to.

use vstd::prelude::*;
use vstd::string::*;
use crate::text::{
    ends_with, has_suffix, replace, replace_all, strip_end, strip_end_of, words, words_of,
};

verus! {

/// Why no manifest was picked from a directory.
#[derive(Clone, Copy, Debug, PartialEq, Eq)]
pub enum PickError {
    /// The directory holds no file whose name ends in `.json`.
    NoJson,
    /// The directory holds more than one such file.
    TooMany,
}

impl PickError {
    /// The message for the error.
    pub open spec fn message_text(self) -> Seq<char> {
        match self {
            PickError::NoJson => "No JSON files found"@,
            PickError::TooMany => "More than one JSON file found"@,
        }
    }

    /// The message for the error.
    pub fn message(&self) -> (r: &'static str)
        ensures
            r@ == self.message_text(),
    {
        match self {
            PickError::NoJson => "No JSON files found",
            PickError::TooMany => "More than one JSON file found",
        }
    }
}

/// Those of `names` that end in `.json`, in their order.
pub open spec fn json_among(names: Seq<Seq<char>>) -> Seq<Seq<char>>
    decreases names.len(),
{
    if names.len() == 0 {
        Seq::empty()
    } else if ends_with(names.last(), ".json"@) {
        json_among(names.drop_last()).push(names.last())
    } else {
        json_among(names.drop_last())
    }
}

/// The manifest among the files that a listing names: the one name that
/// ends in `.json`. The names of a listing are its words.
pub open spec fn picked(listing: Seq<char>) -> Result<Seq<char>, PickError> {
    let found = json_among(words_of(listing));
    if found.len() == 0 {
        Err(PickError::NoJson)
    } else if found.len() == 1 {
        Ok(found[0])
    } else {
        Err(PickError::TooMany)
    }
}

/// Picks the manifest among the files that a listing names.
pub fn pick_json(listing: &str) -> (r: Result<String, PickError>)
    ensures
        match r {
            Ok(name) => picked(listing@) == Ok::<_, PickError>(name@),
            Err(e) => picked(listing@) == Err::<Seq<char>, _>(e),
        },
{
    let names = words(listing);
    let ghost all = names@.map_values(|w: String| w@);
    let mut found: Vec<String> = Vec::new();
    let mut i: usize = 0;
    proof {
        assert(found@.map_values(|w: String| w@) == Seq::<Seq<char>>::empty());
    }
    while i < names.len()
        invariant
            i <= names.len(),
            all == names@.map_values(|w: String| w@),
            found@.map_values(|w: String| w@) == json_among(all.take(i as int)),
        decreases names.len() - i,
    {
        proof {
            assert(all.take(i + 1).drop_last() == all.take(i as int));
            assert(all.take(i + 1).last() == names@[i as int]@);
        }
        if has_suffix(names[i].as_str(), ".json") {
            let ghost before = found@.map_values(|w: String| w@);
            found.push(names[i].clone());
            proof {
                assert(found@.map_values(|w: String| w@) == before.push(names@[i as int]@));
            }
        }
        i += 1;
    }
    proof {
        assert(all.take(names.len() as int) == all);
    }
    if found.len() == 0 {
        Err(PickError::NoJson)
    } else if found.len() == 1 {
        Ok(found[0].clone())
    } else {
        Err(PickError::TooMany)
    }
}

/// The path of the file `file` in the directory `dir`: the directory
/// without slashes at its end, a slash, and the file.
pub open spec fn file_path(dir: Seq<char>, file: Seq<char>) -> Seq<char> {
    strip_end_of(dir, '/') + "/"@ + file
}

/// The path of the file `file` in the directory `dir`.
pub fn manifest_path(dir: &str, file: &str) -> (r: String)
    ensures
        r@ == file_path(dir@, file@),
{
    let mut path = strip_end(dir, '/').to_owned();
    path.append("/");
    path.append(file);
    path
}

/// The name that a link gives to a directory: the link without `http://`
/// and `https://`, with every slash turned into an underscore, and then
/// without `.git`.
pub open spec fn sanitized_text(link: Seq<char>) -> Seq<char> {
    replace_all(
        replace_all(
            replace_all(replace_all(link, "http://"@, Seq::empty()), "https://"@, Seq::empty()),
            "/"@,
            "_"@,
        ),
        ".git"@,
        Seq::empty(),
    )
}

/// The name that a link gives to a directory.
pub fn sanitized(link: &str) -> (r: String)
    ensures
        r@ == sanitized_text(link@),
{
    let first = replace(link, "http://", "");
    let second = replace(first.as_str(), "https://", "");
    let third = replace(second.as_str(), "/", "_");
    proof {
        reveal_strlit("");
        assert(""@ == Seq::<char>::empty());
    }
    replace(third.as_str(), ".git", "")
}

/// The name of a directory made at the time `stamp` for `name`.
pub fn directory_name(stamp: &str, name: &str) -> (r: String)
    ensures
        r@ == stamp@ + "-"@ + name@,
{
    let mut dir = stamp.to_owned();
    dir.append("-");
    dir.append(name);
    dir
}

} // verus!
