//! Model files: their format by the extension of the path, and the decoding
//! of STL data.

use crate::geometry::SourceModel;
use vstd::prelude::*;
use vstd::string::*;

verus! {

/// The formats of model files that the renderer reads.
#[derive(Clone, Copy, PartialEq, Eq, Debug, Structural)]
pub enum ModelFormat {
    /// Wavefront OBJ.
    Obj,
    /// STL, text or binary.
    Stl,
}

/// The index of the last `c` in `s`, or -1 when there is none.
pub open spec fn last_index_of(s: Seq<char>, c: char) -> int
    decreases s.len(),
{
    if s.len() == 0 {
        -1
    } else if s.last() == c {
        s.len() - 1
    } else {
        last_index_of(s.drop_last(), c)
    }
}

/// The file name of a path, as `std::path::Path::file_name` gives it where
/// `/` separates the components: the last component, not counting `/` at the
/// end nor components `.` after the first; a path that ends in `..`, and one
/// without a component but `.` or the root, has none.
pub open spec fn file_name_of(path: Seq<char>) -> Option<Seq<char>>
    decreases path.len(),
{
    if path.len() == 0 {
        None
    } else if path.last() == '/' {
        file_name_of(path.drop_last())
    } else {
        let start = last_index_of(path, '/') + 1;
        let name = path.subrange(start, path.len() as int);
        if name.len() == 1 && name[0] == '.' {
            if start == 0 {
                None
            } else {
                file_name_of(path.drop_last())
            }
        } else if name.len() == 2 && name[0] == '.' && name[1] == '.' {
            None
        } else {
            Some(name)
        }
    }
}

/// The extension of a path, as `std::path::Path::extension` gives it where
/// `/` separates the components: what follows the last `.` of the file name.
/// A file name without a `.`, or with its only `.` in front, has none.
pub open spec fn extension_of(path: Seq<char>) -> Option<Seq<char>> {
    match file_name_of(path) {
        None => None,
        Some(name) => {
            let dot = last_index_of(name, '.');
            if dot <= 0 {
                None
            } else {
                Some(name.subrange(dot + 1, name.len() as int))
            }
        },
    }
}

/// The format that an extension stands for: `obj` or `stl` in any mix of
/// upper and lower case.
pub open spec fn format_of_extension(extension: Seq<char>) -> Option<ModelFormat> {
    if extension.len() != 3 {
        None
    } else if (extension[0] == 'o' || extension[0] == 'O') && (extension[1] == 'b' || extension[1]
        == 'B') && (extension[2] == 'j' || extension[2] == 'J') {
        Some(ModelFormat::Obj)
    } else if (extension[0] == 's' || extension[0] == 'S') && (extension[1] == 't' || extension[1]
        == 'T') && (extension[2] == 'l' || extension[2] == 'L') {
        Some(ModelFormat::Stl)
    } else {
        None
    }
}

/// The last index of `c` is `i` when `c` stands at `i` and nowhere after.
proof fn lemma_last_index(s: Seq<char>, c: char, i: int)
    requires
        -1 <= i < s.len(),
        i >= 0 ==> s[i] == c,
        forall|j: int| i < j < s.len() ==> s[j] != c,
    ensures
        last_index_of(s, c) == i,
    decreases s.len(),
{
    if s.len() > 0 && s.last() != c {
        lemma_last_index(s.drop_last(), c, i);
    }
}

/// The extension of a path.
pub fn file_extension(path: &str) -> (r: Option<&str>)
    ensures
        match r {
            Some(e) => extension_of(path@) == Some(e@),
            None => extension_of(path@) is None,
        },
{
    let count: usize = path.unicode_len();
    let mut end: usize = count;
    proof {
        assert(path@.take(count as int) =~= path@);
    }
    while end > 0
        invariant
            count == path@.len(),
            end <= count,
            file_name_of(path@) == file_name_of(path@.take(end as int)),
        decreases end,
    {
        let ghost whole: Seq<char> = path@.take(end as int);
        proof {
            assert(whole.drop_last() =~= path@.take(end - 1));
        }
        if path.get_char(end - 1) == '/' {
            end -= 1;
        } else {
            let mut start: usize = end - 1;
            while start > 0 && path.get_char(start - 1) != '/'
                invariant
                    count == path@.len(),
                    start < end <= count,
                    forall|j: int| start <= j < end ==> path@[j] != '/',
                decreases start,
            {
                start -= 1;
            }
            proof {
                lemma_last_index(whole, '/', start - 1);
                assert(whole.subrange(start as int, end as int) =~= path@.subrange(
                    start as int,
                    end as int,
                ));
            }
            let ghost name: Seq<char> = path@.subrange(start as int, end as int);
            if end - start == 1 && path.get_char(start) == '.' {
                if start == 0 {
                    return None;
                }
                end -= 1;
            } else if end - start == 2 && path.get_char(start) == '.' && path.get_char(start + 1)
                == '.' {
                return None;
            } else {
                let mut after: usize = end;
                while after > start && path.get_char(after - 1) != '.'
                    invariant
                        count == path@.len(),
                        start <= after <= end <= count,
                        forall|j: int| after <= j < end ==> path@[j] != '.',
                    decreases after,
                {
                    after -= 1;
                }
                proof {
                    lemma_last_index(name, '.', after - 1 - start);
                }
                if after <= start + 1 {
                    return None;
                }
                proof {
                    assert(path@.subrange(after as int, end as int) =~= name.subrange(
                        after - start,
                        name.len() as int,
                    ));
                }
                return Some(path.substring_char(after, end));
            }
        }
    }
    None
}

/// The format that an extension stands for.
pub fn format_for_extension(extension: &str) -> (r: Option<ModelFormat>)
    ensures
        r == format_of_extension(extension@),
{
    if extension.unicode_len() != 3 {
        return None;
    }
    let c0: char = extension.get_char(0);
    let c1: char = extension.get_char(1);
    let c2: char = extension.get_char(2);
    if (c0 == 'o' || c0 == 'O') && (c1 == 'b' || c1 == 'B') && (c2 == 'j' || c2 == 'J') {
        Some(ModelFormat::Obj)
    } else if (c0 == 's' || c0 == 'S') && (c1 == 't' || c1 == 'T') && (c2 == 'l' || c2 == 'L') {
        Some(ModelFormat::Stl)
    } else {
        None
    }
}

/// What decoding the bytes of an STL file gives: the positions of the
/// vertices as single-precision bit patterns, three to a vertex, and the
/// vertex indices of the faces, three to a face; or the message of the
/// decoder when the bytes are no STL data.
pub uninterp spec fn stl_decoding(bytes: Seq<u8>) -> Result<(Seq<u32>, Seq<usize>), Seq<char>>;

/// Calls `stl_io::read_stl` on the bytes and hands out the vertices and
/// faces of its indexed mesh as flat lists, or its error as text. The contract
/// claims only that the result is determined by the bytes, and gives it the
/// name `stl_decoding`.
#[verifier::external_body]
fn read_stl_bytes(bytes: &[u8]) -> (r: Result<(Vec<u32>, Vec<usize>), String>)
    ensures
        match r {
            Ok(mesh) => stl_decoding(bytes@) == Ok::<(Seq<u32>, Seq<usize>), Seq<char>>(
                (mesh.0@, mesh.1@),
            ),
            Err(message) => stl_decoding(bytes@) == Err::<(Seq<u32>, Seq<usize>), Seq<char>>(
                message@,
            ),
        },
{
    let mut cursor = std::io::Cursor::new(bytes);
    match stl_io::read_stl(&mut cursor) {
        Ok(mesh) => Ok(
            (
                mesh.vertices.iter().flat_map(|v| v.0.iter().map(|c| c.to_bits())).collect(),
                mesh.faces.iter().flat_map(|f| f.vertices.iter().copied()).collect(),
            ),
        ),
        Err(error) => Err(error.to_string()),
    }
}

/// Decodes the bytes of an STL file, text or binary, into a source model
/// without material.
pub fn decode_stl(bytes: &[u8]) -> (r: Result<SourceModel, String>)
    ensures
        match r {
            Ok(model) => stl_decoding(bytes@) == Ok::<(Seq<u32>, Seq<usize>), Seq<char>>(
                (model.positions@, model.indices@),
            ) && model.material_id is None,
            Err(message) => stl_decoding(bytes@) == Err::<(Seq<u32>, Seq<usize>), Seq<char>>(
                message@,
            ),
        },
{
    match read_stl_bytes(bytes) {
        Ok(mesh) => Ok(SourceModel { positions: mesh.0, indices: mesh.1, material_id: None }),
        Err(message) => Err(message),
    }
}

} // verus!
