//! The `extract` commands: the embedded images of a package and its plain
//! text.

use vstd::prelude::*;

use crate::diff::{joined_paragraphs, joined_text};
use crate::error::DocliError;
use crate::package::Package;
use crate::read::{read_index, read_index_outcome};
use crate::text::{chars_of, string_from_chars};

verus! {

/// The `extract` subcommands.
#[derive(Debug)]
pub enum ExtractCommand {
    Images(ExtractImagesArgs),
    Text(ExtractTextArgs),
}

/// Write the embedded images of `input` into `out_dir`.
#[derive(Debug)]
pub struct ExtractImagesArgs {
    pub input: String,
    pub out_dir: String,
}

/// Print the plain text of `input`.
#[derive(Debug)]
pub struct ExtractTextArgs {
    pub input: String,
}

pub open spec fn has_prefix(s: Seq<char>, p: Seq<char>) -> bool {
    s.len() >= p.len() && s.subrange(0, p.len() as int) == p
}

pub open spec fn has_suffix(s: Seq<char>, p: Seq<char>) -> bool {
    s.len() >= p.len() && s.subrange(s.len() - p.len(), s.len() as int) == p
}

/// An entry under `word/media/` whose name ends in an image extension.
pub open spec fn is_image_entry(name: Seq<char>) -> bool {
    &&& has_prefix(name, "word/media/"@)
    &&& {
        ||| has_suffix(name, ".png"@)
        ||| has_suffix(name, ".jpg"@)
        ||| has_suffix(name, ".jpeg"@)
        ||| has_suffix(name, ".gif"@)
        ||| has_suffix(name, ".bmp"@)
        ||| has_suffix(name, ".tiff"@)
        ||| has_suffix(name, ".emf"@)
        ||| has_suffix(name, ".wmf"@)
    }
}

/// Where the last `/` of `s` stands among its first `n` characters.
pub open spec fn last_slash_before(s: Seq<char>, n: int) -> Option<int>
    decreases n,
{
    if n <= 0 {
        None
    } else if s[n - 1] == '/' {
        Some(n - 1)
    } else {
        last_slash_before(s, n - 1)
    }
}

/// What follows the last `/` of `name` (all of it when there is none).
pub open spec fn file_name_of(name: Seq<char>) -> Seq<char> {
    match last_slash_before(name, name.len() as int) {
        Some(k) => name.subrange(k + 1, name.len() as int),
        None => name,
    }
}

/// The image entries among `names`, in order, each with its file name.
pub open spec fn image_entries_of(names: Seq<Seq<char>>) -> Seq<(Seq<char>, Seq<char>)>
    decreases names.len(),
{
    if names.len() == 0 {
        Seq::empty()
    } else {
        let prev = image_entries_of(names.drop_last());
        let n = names.last();
        if is_image_entry(n) {
            prev.push((n, file_name_of(n)))
        } else {
            prev
        }
    }
}

fn starts_with(cs: &Vec<char>, p: &str) -> (r: bool)
    ensures
        r == has_prefix(cs@, p@),
{
    let ps = chars_of(p);
    if cs.len() < ps.len() {
        return false;
    }
    let mut i: usize = 0;
    while i < ps.len()
        invariant
            0 <= i <= ps.len() <= cs.len(),
            ps@ == p@,
            forall|k: int| 0 <= k < i ==> cs@[k] == ps@[k],
        decreases ps.len() - i,
    {
        if cs[i] != ps[i] {
            assert(cs@.subrange(0, ps.len() as int)[i as int] != p@[i as int]);
            return false;
        }
        i = i + 1;
    }
    assert(cs@.subrange(0, ps.len() as int) =~= p@);
    true
}

fn ends_with(cs: &Vec<char>, p: &str) -> (r: bool)
    ensures
        r == has_suffix(cs@, p@),
{
    let ps = chars_of(p);
    if cs.len() < ps.len() {
        return false;
    }
    let off = cs.len() - ps.len();
    let mut i: usize = 0;
    while i < ps.len()
        invariant
            0 <= i <= ps.len() <= cs.len(),
            off == cs.len() - ps.len(),
            ps@ == p@,
            forall|k: int| 0 <= k < i ==> cs@[off + k] == ps@[k],
        decreases ps.len() - i,
    {
        if cs[off + i] != ps[i] {
            assert(cs@.subrange(off as int, cs.len() as int)[i as int] != p@[i as int]);
            return false;
        }
        i = i + 1;
    }
    assert(cs@.subrange(off as int, cs.len() as int) =~= p@);
    true
}

/// Whether `name` names an embedded image.
pub fn image_entry(name: &str) -> (r: bool)
    ensures
        r == is_image_entry(name@),
{
    let cs = chars_of(name);
    proof {
        reveal_strlit("word/media/");
    }
    starts_with(&cs, "word/media/") && (ends_with(&cs, ".png") || ends_with(&cs, ".jpg") || ends_with(&cs, ".jpeg")
        || ends_with(&cs, ".gif") || ends_with(&cs, ".bmp") || ends_with(&cs, ".tiff") || ends_with(&cs, ".emf")
        || ends_with(&cs, ".wmf"))
}

/// What follows the last `/` of `name`.
pub fn file_name(name: &str) -> (r: String)
    ensures
        r@ == file_name_of(name@),
{
    let cs = chars_of(name);
    let mut n = cs.len();
    while n > 0 && cs[n - 1] != '/'
        invariant
            0 <= n <= cs.len(),
            cs@ == name@,
            last_slash_before(name@, name@.len() as int) == last_slash_before(name@, n as int),
        decreases n,
    {
        n = n - 1;
    }
    let mut out: Vec<char> = Vec::new();
    let mut i = n;
    while i < cs.len()
        invariant
            n <= i <= cs.len(),
            out@ == cs@.subrange(n as int, i as int),
        decreases cs.len() - i,
    {
        out.push(cs[i]);
        i = i + 1;
        assert(out@ =~= cs@.subrange(n as int, i as int));
    }
    if n == 0 {
        assert(cs@.subrange(0, cs.len() as int) =~= name@);
    }
    string_from_chars(&out)
}

/// The image entries among the entry names of a package, in order, each
/// with the file name it is written under.
pub fn image_entries(names: &Vec<String>) -> (r: Vec<(String, String)>)
    ensures
        r@.map_values(|p: (String, String)| (p.0@, p.1@)) == image_entries_of(names@.map_values(|s: String| s@)),
{
    let ghost nv = names@.map_values(|s: String| s@);
    let mut out: Vec<(String, String)> = Vec::new();
    let mut i: usize = 0;
    assert(nv.subrange(0, 0) =~= Seq::<Seq<char>>::empty());
    while i < names.len()
        invariant
            0 <= i <= names.len(),
            nv == names@.map_values(|s: String| s@),
            out@.map_values(|p: (String, String)| (p.0@, p.1@)) == image_entries_of(nv.subrange(0, i as int)),
        decreases names.len() - i,
    {
        assert(nv.subrange(0, i + 1).drop_last() =~= nv.subrange(0, i as int));
        assert(nv.subrange(0, i + 1).last() == names@[i as int]@);
        if image_entry(names[i].as_str()) {
            let ghost before = out@;
            out.push((names[i].clone(), file_name(names[i].as_str())));
            assert(out@.map_values(|p: (String, String)| (p.0@, p.1@)) =~= before.map_values(
                |p: (String, String)| (p.0@, p.1@),
            ).push((names@[i as int]@, file_name_of(names@[i as int]@))));
        }
        i = i + 1;
    }
    assert(nv.subrange(0, i as int) =~= nv);
    out
}

/// The plain text of a document.
#[derive(Debug)]
pub struct ExtractTextData {
    pub source: String,
    pub text: String,
}

/// The plain text of `package`, opened from `args.input`: the texts of the
/// paragraphs of its main document part, one per line.
pub fn extract_text(args: &ExtractTextArgs, package: &Package) -> (r: Result<ExtractTextData, DocliError>)
    ensures
        match read_index_outcome(package) {
            Ok(v) => r matches Ok(d) && d.source@ == args.input@ && d.text@ == joined_text(v.paragraphs, v.paragraphs.len() as int),
            Err(e) => r matches Err(x) && x.view_pair() == e,
        },
{
    let index = read_index(package)?;
    let text = joined_paragraphs(&index);
    Ok(ExtractTextData { source: args.input.clone(), text })
}

} // verus!
