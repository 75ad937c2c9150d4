//! Parameter names made into environment variable names (Unicode upper-case
//! mapping), and parameters as listed by path.
use vstd::prelude::*;

use crate::env_map::{flatten_pages, pages_view, pairs_view};
use crate::text::{
    ascii_upper, chars_of, has_prefix, law_ascii_names_upper_cased,
    law_env_names_have_no_separators, string_from, underscored, unicode_upper, upper_env_name,
    without_prefix,
};
use vstd::utf8::is_ascii_chars;

verus! {

broadcast use vstd::string::group_string_axioms;

/// The environment variable name for the parameter `name` under `prefix`:
/// `prefix` removed when `name` starts with it, then upper-cased (Unicode),
/// then `'-'` and `'/'` made `'_'`.
pub fn transform(name: &str, prefix: &str) -> (res: String)
    ensures
        res@ == underscored(unicode_upper(without_prefix(name@, prefix@))),
        !res@.contains('-'),
        !res@.contains('/'),
        is_ascii_chars(name@) ==> {
            &&& res@ == underscored(ascii_upper(without_prefix(name@, prefix@)))
            &&& res@.len() == without_prefix(name@, prefix@).len()
            &&& forall|i: int| 0 <= i < res@.len() ==> !('a' <= #[trigger] res@[i] <= 'z')
        },
{
    let cs = chars_of(name);
    let ps = chars_of(prefix);
    let relative = if has_prefix(&cs, &ps) {
        string_from(&cs, ps.len())
    } else {
        name.to_string()
    };
    let res = upper_env_name(relative.as_str());
    proof {
        let base = without_prefix(name@, prefix@);
        assert(relative@ == base);
        law_env_names_have_no_separators(unicode_upper(base));
        if is_ascii_chars(name@) {
            assert(is_ascii_chars(base)) by {
                if prefix@.is_prefix_of(name@) {
                    assert forall|i| 0 <= i < base.len() implies '\0' <= #[trigger] base[i]
                        <= '\u{7f}' by {
                        assert(base[i] == name@[i + prefix@.len()]);
                    }
                }
            }
            law_ascii_names_upper_cased(base);
        }
    }
    res
}

/// A parameter as listed: its full name and its value.
#[derive(Debug)]
pub struct Parameter {
    name: String,
    value: String,
}

impl Parameter {
    /// The characters of the name.
    pub closed spec fn name_view(&self) -> Seq<char> {
        self.name@
    }

    /// The characters of the value.
    pub closed spec fn value_view(&self) -> Seq<char> {
        self.value@
    }

    /// The full name.
    pub fn name(&self) -> (res: &str)
        ensures
            res@ == self.name_view(),
    {
        self.name.as_str()
    }

    /// The value.
    pub fn value(&self) -> (res: &str)
        ensures
            res@ == self.value_view(),
    {
        self.value.as_str()
    }
}

/// The parameters of a listing: its entries, page after page, each a name
/// with its value.
pub fn parameters_from_pages(pages: Vec<Vec<(String, String)>>) -> (res: Vec<Parameter>)
    ensures
        res@.len() == pages_view(pages@).len(),
        forall|i: int|
            0 <= i < res@.len() ==> #[trigger] res@[i].name_view() == pages_view(pages@)[i].0
                && res@[i].value_view() == pages_view(pages@)[i].1,
{
    let flat = flatten_pages(&pages);
    let mut res: Vec<Parameter> = Vec::new();
    let mut i: usize = 0;
    while i < flat.len()
        invariant
            i <= flat@.len(),
            res@.len() == i,
            pairs_view(flat@) == pages_view(pages@),
            forall|j: int|
                0 <= j < i ==> #[trigger] res@[j].name_view() == pairs_view(
                    flat@,
                )[j].0 && res@[j].value_view() == pairs_view(flat@)[j].1,
        decreases flat@.len() - i,
    {
        res.push(Parameter { name: flat[i].0.clone(), value: flat[i].1.clone() });
        proof {
            assert(pairs_view(flat@)[i as int] == (flat@[i as int].0@, flat@[i as int].1@));
        }
        i = i + 1;
    }
    res
}

} // verus!
