//! Names that no two things share, and the temporary files that have them.
use vstd::prelude::*;

use crate::path::{
    file_name, file_name_of, is_name, is_plain_dir, join_path, joined, law_file_in_directory, parent,
    parent_of,
};
use crate::text::{push_all, push_text, to_chars, to_text};

verus! {

/// Whether the text is an identifier: 36 characters, hexadecimal digits with
/// hyphens in four places.
pub open spec fn is_id(s: Seq<char>) -> bool {
    &&& s.len() == 36
    &&& forall|i: int|
        0 <= i < 36 ==> if i == 8 || i == 13 || i == 18 || i == 23 {
            #[trigger] s[i] == '-'
        } else {
            ('0' <= s[i] && s[i] <= '9') || ('a' <= s[i] && s[i] <= 'f')
        }
}

/// `Uuid::new_v4` of the `uuid` crate, as text: an identifier in lower case with
/// hyphens. Which one is left to chance.
#[verifier::external_body]
fn new_uuid() -> (r: String)
    ensures
        is_id(r@),
{
    uuid::Uuid::new_v4().to_string()
}

/// A new identifier.
pub fn new_id() -> (r: String)
    ensures
        is_id(r@),
{
    new_uuid()
}

/// The name of the temporary file that a file is made in.
pub open spec fn temp_name(name: Seq<char>, id: Seq<char>) -> Seq<char> {
    "."@ + name + "."@ + id + ".tmp"@
}

/// The temporary file that stands beside a file.
pub open spec fn temp_beside(path: Seq<char>, fallback: Seq<char>, id: Seq<char>) -> Seq<char> {
    let dir = match parent(path) {
        Some(p) => p,
        None => "."@,
    };
    let name = match file_name(path) {
        Some(n) => n,
        None => fallback,
    };
    joined(dir, temp_name(name, id))
}

/// The temporary file with the given identifier.
pub fn temp_path_with(path: &str, fallback: &str, id: &str) -> (r: String)
    ensures
        r@ == temp_beside(path@, fallback@, id@),
{
    let dir = match parent_of(path) {
        Some(p) => to_text(p.as_slice()),
        None => ".".to_string(),
    };
    let name = match file_name_of(path) {
        Some(n) => n,
        None => to_chars(fallback),
    };
    let mut out = to_chars(".");
    push_all(&mut out, name.as_slice());
    push_text(&mut out, ".");
    push_text(&mut out, id);
    push_text(&mut out, ".tmp");
    let text = to_text(out.as_slice());
    join_path(dir.as_str(), text.as_str())
}

/// A temporary file beside a file, with a name of its own.
pub fn temp_path_beside(path: &str, fallback: &str) -> (r: String)
    ensures
        exists|id: Seq<char>| is_id(id) && r@ == temp_beside(path@, fallback@, id),
{
    let id = new_id();
    let r = temp_path_with(path, fallback, id.as_str());
    assert(is_id(id@) && r@ == temp_beside(path@, fallback@, id@));
    r
}

// ---------------------------------------------------------------------------
// Laws
// ---------------------------------------------------------------------------
/// A temporary file stands in the directory of the file that it is for, under a
/// hidden name, and another identifier gives another file.
pub proof fn law_temp_beside_file(
    dir: Seq<char>,
    name: Seq<char>,
    fallback: Seq<char>,
    a: Seq<char>,
    b: Seq<char>,
)
    requires
        is_plain_dir(dir),
        dir.len() > 0,
        dir.last() != '/',
        is_name(name),
    ensures
        temp_beside(joined(dir, name), fallback, a) == joined(
            dir,
            "."@ + name + "."@ + a + ".tmp"@,
        ),
        is_id(a) && is_id(b) && a != b ==> temp_name(name, a) != temp_name(name, b),
{
    law_file_in_directory(dir, name);
    if is_id(a) && is_id(b) && temp_name(name, a) == temp_name(name, b) {
        let k = "."@.len() + name.len() + "."@.len();
        let (x, y) = (temp_name(name, a), temp_name(name, b));
        assert forall|i: int| 0 <= i < 36 implies a[i] == b[i] by {
            assert(x[k + i] == a[i]);
            assert(y[k + i] == b[i]);
        }
        assert(a =~= b);
    }
}

} // verus!
