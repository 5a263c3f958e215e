//! A raw question record, as decoded from one input line: its text fields and
//! its tags.

use vstd::prelude::*;

use crate::question_information::QuestionInformation;
use crate::text::{count_words, crop16, total_words};

verus! {

/// A question as it appears in the input: text fields and tags.
#[derive(Debug)]
pub struct Question {
    pub texts: Vec<String>,
    pub tags: Vec<String>,
}

impl Question {
    /// Converts the question into a [`QuestionInformation`]: the word count is
    /// the number of whitespace-delimited words across all text fields, capped
    /// at the largest value the counter can hold.
    pub fn into_information(self) -> (r: QuestionInformation)
        ensures
            r.words == crop16(total_words(self.texts.deep_view())),
            r.tags == self.tags,
    {
        let ghost tviews = self.texts.deep_view();
        let n = self.texts.len();
        let mut total: u64 = 0;
        let mut i: usize = 0;
        while i < n
            invariant
                i <= n,
                n == self.texts@.len(),
                tviews == self.texts.deep_view(),
                total == (if total_words(tviews.take(i as int)) > u64::MAX {
                    u64::MAX as nat
                } else {
                    total_words(tviews.take(i as int))
                }),
            decreases n - i,
        {
            proof {
                assert(tviews[i as int] == self.texts@[i as int]@);
            }
            let c = count_words(self.texts[i].as_str());
            total = total.saturating_add(c as u64);
            proof {
                assert(tviews.take(i + 1).drop_last() =~= tviews.take(i as int));
                assert(tviews.take(i + 1).last() == tviews[i as int]);
            }
            i = i + 1;
        }
        proof {
            assert(tviews.take(n as int) =~= tviews);
        }
        let words: u16 = if total > 65535 {
            65535
        } else {
            total as u16
        };
        QuestionInformation::new(words, self.tags)
    }
}

} // verus!
