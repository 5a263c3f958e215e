//! The decoded form of one question record: its word count and its tags.

use vstd::prelude::*;

verus! {

/// Mathematical value of a [`QuestionInformation`].
#[verifier::ext_equal]
pub ghost struct QuestionV {
    pub words: nat,
    pub tags: Seq<Seq<char>>,
}

/// Information of a question: the number of words across its texts and the
/// tags attached to it.
#[derive(Debug)]
pub struct QuestionInformation {
    pub words: u16,
    pub tags: Vec<String>,
}

impl View for QuestionInformation {
    type V = QuestionV;

    open spec fn view(&self) -> QuestionV {
        QuestionV { words: self.words as nat, tags: self.tags.deep_view() }
    }
}

impl DeepView for QuestionInformation {
    type V = QuestionV;

    open spec fn deep_view(&self) -> QuestionV {
        self.view()
    }
}

impl QuestionInformation {
    /// Creates a new question information with the given word count and tags.
    pub fn new(words: u16, tags: Vec<String>) -> (r: Self)
        ensures
            r.words == words,
            r.tags == tags,
    {
        QuestionInformation { words, tags }
    }
}

} // verus!
