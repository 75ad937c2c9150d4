//! Parameters as fetched from the parameter store, made relative to the path
//! they were requested at.
use vstd::prelude::*;

use crate::env_map::{flatten_pages, pages_view, pairs_view};
use crate::text::{
    chars_of, has_prefix, lemma_replaced_absent, lemma_replaced_removes,
    lemma_trim_leading_slashes, lemma_without_char_absent, replace, string_from,
    trim_leading_slashes, without_char,
};

verus! {

broadcast use vstd::string::group_string_axioms;

/// A parameter: its name and its value.
#[derive(Debug)]
pub struct Parameter {
    pub name: String,
    pub value: String,
}

/// The name `name` made relative to `path`: when `name` starts with `path`,
/// that prefix and then every `'/'` that follows it are removed; otherwise
/// `name` stays as it is.
pub open spec fn stripped(name: Seq<char>, path: Seq<char>) -> Seq<char> {
    if path.is_prefix_of(name) {
        trim_leading_slashes(name.skip(path.len() as int))
    } else {
        name
    }
}

/// An error message with every backslash removed.
pub fn unescape(s: &str) -> (res: String)
    ensures
        res@ == without_char(s@, '\\'),
        !res@.contains('\\'),
{
    proof {
        reveal_strlit("\\");
        reveal_strlit("");
        reveal_strlit("\\\"");
        reveal_strlit("\"");
        assert("\\"@ =~= seq!['\\']);
        assert(""@ =~= Seq::<char>::empty());
        assert("\\\""@ =~= seq!['\\', '"']);
    }
    let once = replace(s, "\\", "");
    proof {
        lemma_replaced_removes(s@, '\\');
        lemma_without_char_absent(s@, '\\');
        lemma_replaced_absent(once@, "\\\""@, "\""@);
    }
    replace(once.as_str(), "\\\"", "\"")
}

/// `name` made relative to `path` (see `stripped`).
pub fn strip_prefix(name: &str, path: &str) -> (res: String)
    ensures
        res@ == stripped(name@, path@),
        path@.is_prefix_of(name@) && res@.len() > 0 ==> res@[0] != '/',
        exists|k: int| 0 <= k <= name@.len() && res@ == name@.skip(k),
{
    let cs = chars_of(name);
    let ps = chars_of(path);
    if has_prefix(&cs, &ps) {
        let mut i: usize = ps.len();
        while i < cs.len() && cs[i] == '/'
            invariant
                ps@.len() <= i <= cs@.len(),
                cs@ == name@,
                trim_leading_slashes(cs@.skip(ps@.len() as int)) == trim_leading_slashes(
                    cs@.skip(i as int),
                ),
            decreases cs.len() - i,
        {
            proof {
                assert(cs@.skip(i as int).skip(1) == cs@.skip(i + 1));
            }
            i = i + 1;
        }
        let res = string_from(&cs, i);
        proof {
            lemma_trim_leading_slashes(cs@.skip(ps@.len() as int));
            assert(trim_leading_slashes(cs@.skip(i as int)) == cs@.skip(i as int));
        }
        res
    } else {
        let res = name.to_string();
        proof {
            assert(name@.skip(0) == name@);
        }
        res
    }
}

/// The parameters of a listing at `path`: the error message unescaped when
/// the listing failed, else its entries, page after page, each named
/// relative to `path`.
pub fn parameters_from_listing(
    path: &str,
    listing: Result<Vec<Vec<(String, String)>>, String>,
) -> (res: Result<Vec<Parameter>, String>)
    ensures
        listing is Ok <==> res is Ok,
        listing is Err ==> res->Err_0@ == without_char(listing->Err_0@, '\\'),
        listing is Ok ==> {
            let flat = pages_view(listing->Ok_0@);
            let ps = res->Ok_0@;
            &&& ps.len() == flat.len()
            &&& forall|i: int|
                0 <= i < ps.len() ==> #[trigger] ps[i].name@ == stripped(flat[i].0, path@)
                    && ps[i].value@ == flat[i].1
        },
{
    match listing {
        Err(e) => Err(unescape(e.as_str())),
        Ok(pages) => {
            let flat = flatten_pages(&pages);
            let mut params: Vec<Parameter> = Vec::new();
            let mut i: usize = 0;
            while i < flat.len()
                invariant
                    i <= flat@.len(),
                    params@.len() == i,
                    pairs_view(flat@) == pages_view(pages@),
                    forall|j: int|
                        0 <= j < i ==> #[trigger] params@[j].name@ == stripped(
                            pairs_view(flat@)[j].0,
                            path@,
                        ) && params@[j].value@ == pairs_view(flat@)[j].1,
                decreases flat@.len() - i,
            {
                let name = strip_prefix(flat[i].0.as_str(), path);
                let value = flat[i].1.clone();
                params.push(Parameter { name, value });
                i = i + 1;
            }
            Ok(params)
        },
    }
}

/// A name under `path` loses `path` and then the run of `'/'` that follows
/// it, and what is left does not start with `'/'`; a name not under `path`
/// stays as it is.
pub proof fn law_names_relative_to_path(name: Seq<char>, path: Seq<char>)
    ensures
        path.is_prefix_of(name) ==> exists|k: int|
            path.len() <= k <= name.len() && stripped(name, path) == name.skip(k) && (forall|j: int|
                path.len() <= j < k ==> name[j] == '/'),
        path.is_prefix_of(name) && stripped(name, path).len() > 0 ==> stripped(name, path)[0]
            != '/',
        !path.is_prefix_of(name) ==> stripped(name, path) == name,
{
    if path.is_prefix_of(name) {
        let rest = name.skip(path.len() as int);
        lemma_trim_leading_slashes(rest);
        let k = choose|k: int|
            0 <= k <= rest.len() && trim_leading_slashes(rest) == rest.skip(k) && (forall|j: int|
                0 <= j < k ==> rest[j] == '/');
        assert(rest.skip(k) =~= name.skip(path.len() + k));
        assert forall|j: int| path.len() <= j < path.len() + k implies name[j] == '/' by {
            assert(rest[j - path.len()] == '/');
        }
    }
}

} // verus!
