//! The invoice PDF preview: sample PDFs cached under a token that names a
//! file in the preview cache directory.
use crate::text::chars_of;
use vstd::string::StringSliceAdditionalSpecFns;
use vstd::prelude::*;

verus! {

/// Characters a preview token may hold.
pub open spec fn token_char_ok(c: char) -> bool {
    ('a' <= c <= 'z') || ('A' <= c <= 'Z') || ('0' <= c <= '9') || c == '-' || c == '_'
}

/// A token is non-empty, at most 64 bytes long, and made of ASCII letters,
/// digits, `-` and `_`.
pub open spec fn valid_token(token: &str) -> bool {
    &&& token@.len() > 0
    &&& token.spec_bytes().len() <= 64
    &&& forall|i: int| 0 <= i < token@.len() ==> token_char_ok(#[trigger] token@[i])
}

pub fn is_valid_preview_token(token: &str) -> (r: bool)
    ensures
        r == valid_token(token),
{
    let nbytes = token.as_bytes().len();
    if token.is_empty() || nbytes > 64 {
        return false;
    }
    let v = chars_of(token);
    let mut i: usize = 0;
    while i < v.len()
        invariant
            i <= v.len(),
            v@ == token@,
            token@.len() > 0,
            token.spec_bytes().len() <= 64,
            forall|k: int| 0 <= k < i ==> token_char_ok(#[trigger] token@[k]),
        decreases v.len() - i,
    {
        let c = v[i];
        let ok = ('a' <= c && c <= 'z') || ('A' <= c && c <= 'Z') || ('0' <= c && c <= '9') || c
            == '-' || c == '_';
        if !ok {
            assert(!token_char_ok(token@[i as int]));
            return false;
        }
        i = i + 1;
    }
    true
}

/// `Path::join` on Unix of a directory and a relative or absolute name: an
/// absolute name replaces the directory, an empty directory adds nothing,
/// and a `/` is put between the two unless the directory ends with one.
pub open spec fn path_join(dir: Seq<char>, name: Seq<char>) -> Seq<char> {
    if name.len() > 0 && name[0] == '/' {
        name
    } else if dir.len() == 0 {
        name
    } else if dir.last() == '/' {
        dir + name
    } else {
        dir + "/"@ + name
    }
}

/// The file a preview PDF is cached in: `{token}.pdf` in the cache directory.
///
/// For a valid token the file lies directly in a non-empty cache directory:
/// the path is the directory, a separator where needed, and a name holding
/// no `/` and no `..`.
pub fn preview_pdf_path(cache_dir: &str, token: &str) -> (r: String)
    ensures
        r@ == path_join(cache_dir@, token@ + ".pdf"@),
        valid_token(token) && cache_dir@.len() > 0 ==> r@.take(cache_dir@.len() as int) == cache_dir@
            && (forall|i: int| 0 <= i < token@.len() ==> #[trigger] token@[i] != '/' && token@[i] != '.')
            && r@ == cache_dir@ + (if cache_dir@.last() == '/' {
            Seq::<char>::empty()
        } else {
            "/"@
        }) + token@ + ".pdf"@,
{
    let mut name = String::from_str(token);
    name.append(".pdf");
    let starts_slash = token.is_empty() == false && {
        let v = chars_of(token);
        v[0] == '/'
    };
    proof {
        reveal_strlit(".pdf");
        reveal_strlit("/");
        if token@.len() > 0 {
            assert(name@[0] == token@[0]);
        }
    }
    if starts_slash {
        return name;
    }
    if cache_dir.is_empty() {
        return name;
    }
    let d = chars_of(cache_dir);
    let mut out = String::from_str(cache_dir);
    if d[d.len() - 1] != '/' {
        out.append("/");
    }
    out.append(name.as_str());
    proof {
        if valid_token(token) && cache_dir@.len() > 0 {
            assert(token_char_ok(token@[0]));
            assert forall|i: int| 0 <= i < token@.len() implies #[trigger] token@[i] != '/'
                && token@[i] != '.' by {
                assert(token_char_ok(token@[i]));
            }
            assert(out@.take(cache_dir@.len() as int) =~= cache_dir@);
        }
    }
    out
}

} // verus!
