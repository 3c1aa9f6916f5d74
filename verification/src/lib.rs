//! Verified core of a utility that manages Microsoft Edge launch flags on
//! shortcuts and on the handler used when other apps open web links.
use vstd::prelude::*;

pub mod text;
pub mod tokens;
pub mod options;
pub mod targets;
pub mod registry;
pub mod path_parse;
pub mod path_order;
pub mod paths;
pub mod apply;
pub mod report;
pub mod layout;
pub mod readback;

verus! {

/// A vector of characters deep-views as its plain view.
pub broadcast proof fn lemma_char_vec_deep_view(v: Vec<char>)
    ensures
        #[trigger] v.deep_view() == v@,
{
    assert(v.deep_view() =~= v@);
}

} // verus!
