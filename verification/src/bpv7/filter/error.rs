//! The answer of a filter that refuses a bundle.

use vstd::prelude::*;
use vstd::string::StringExecFns;

verus! {

/// Reason a filter rejected a bundle.
#[derive(Debug, Clone, PartialEq, Eq)]
pub struct FilterRejection {
    pub filter_name: &'static str,
    pub reason: String,
}

/// Model of a rejection: the filter's name and the reason, as text.
pub struct FilterRejectionView {
    pub filter_name: Seq<char>,
    pub reason: Seq<char>,
}

impl View for FilterRejection {
    type V = FilterRejectionView;

    open spec fn view(&self) -> FilterRejectionView {
        FilterRejectionView { filter_name: self.filter_name@, reason: self.reason@ }
    }
}

impl FilterRejection {
    /// The rejection as one line of text: `"<filter_name>: <reason>"`.
    pub fn message(&self) -> (r: String)
        ensures
            r@ == self.filter_name@ + ": "@ + self.reason@,
    {
        let mut s = self.filter_name.to_owned();
        s.append(": ");
        s.append(self.reason.as_str());
        s
    }
}

} // verus!
