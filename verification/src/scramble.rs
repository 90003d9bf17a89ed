//! Overwriting a text with noise of the same shape: every line keeps its
//! length, every character becomes a random letter or digit. What the random
//! characters are is left entirely open; only the shape is promised.

use vstd::prelude::*;
use rand::RngExt;
use crate::split::lemma_lines_of_join;
use crate::split::spec_lines;
use crate::split::split_lines;
use crate::split::join_with;

verus! {

#[verifier::external_type_specification]
#[verifier::external_body]
pub struct ExThreadRng(rand::rngs::ThreadRng);

pub open spec fn is_ascii_alphanumeric_char(c: char) -> bool {
    (48 <= c as u32 && c as u32 <= 57) || (65 <= c as u32 && c as u32 <= 90) || (97 <= c as u32
        && c as u32 <= 122)
}

/// Relies on rand's Alphanumeric distribution: every sampled byte is an
/// ASCII letter or digit, and taking `length` of them yields a string of
/// exactly `length` such characters. Which characters come out is random and
/// nothing is promised of them.
#[verifier::external_body]
fn random_alphanumeric_string(rng: &mut rand::rngs::ThreadRng, length: usize) -> (r: String)
    ensures
        r@.len() == length,
        forall|i: int| 0 <= i < r@.len() ==> is_ascii_alphanumeric_char(r@[i]),
{
    rng.sample_iter(rand::distr::Alphanumeric).take(length).map(char::from).collect()
}

/// Replace every line of the text by a random alphanumeric line of the same
/// length: the line count and each line's length survive, the content does
/// not.
pub fn scramble_contents(rng: &mut rand::rngs::ThreadRng, contents: &str) -> (r: String)
    ensures
        spec_lines(r@).len() == spec_lines(contents@).len(),
        forall|i: int|
            0 <= i < spec_lines(r@).len() ==> #[trigger] spec_lines(r@)[i].len() == spec_lines(
                contents@,
            )[i].len(),
{
    let lines = split_lines(contents);
    let ghost ldv = lines.deep_view();
    let mut parts: Vec<String> = Vec::new();
    let mut i: usize = 0;
    while i < lines.len()
        invariant
            i <= lines@.len(),
            ldv == lines.deep_view(),
            ldv.len() == lines@.len(),
            parts.deep_view().len() == i,
            forall|j: int|
                0 <= j < i ==> #[trigger] parts.deep_view()[j].len() == ldv[j].len(),
            forall|j: int, p: int|
                0 <= j < i && 0 <= p < parts.deep_view()[j].len()
                    ==> is_ascii_alphanumeric_char(#[trigger] parts.deep_view()[j][p]),
        decreases lines@.len() - i,
    {
        let ghost old_parts = parts.deep_view();
        let line_len = lines[i].as_str().unicode_len();
        proof {
            assert(ldv[i as int] == lines@[i as int]@);
        }
        let noise = random_alphanumeric_string(rng, line_len);
        parts.push(noise);
        proof {
            assert(parts.deep_view() =~= old_parts.push(parts@[parts@.len() - 1]@));
        }
        i = i + 1;
    }
    let r = join_with(&parts, '\n');
    proof {
        let pdv = parts.deep_view();
        assert(spec_lines(contents@).len() >= 1);
        assert(pdv.len() == ldv.len());
        assert forall|a: int, b: int|
            0 <= a < pdv.len() && 0 <= b < pdv[a].len() implies #[trigger] pdv[a][b] != '\n' by {
            assert(is_ascii_alphanumeric_char(pdv[a][b]));
        }
        lemma_lines_of_join(pdv);
        assert(spec_lines(r@) == pdv);
    }
    r
}

} // verus!
