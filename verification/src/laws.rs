//! The engine's general guarantees, stated and proved over the model that
//! the methods' contracts use: where suggestions come from, what is never
//! suggested, the cap, indifference to trailing whitespace, the chaining
//! behaviour of completions, and idempotence of updates.

use vstd::prelude::*;
use crate::completer::eligible;
use crate::completer::eligible_of;
use crate::completer::lemma_eligible_of_entries;
use crate::completer::replacement_of;
use crate::completer::spec_suggestions;
use crate::completer::spec_update;
use crate::completer::EngineModel;
use crate::completer::SUGGESTION_CAP;
use crate::text::has_cur_token;
use crate::text::is_space_char;
use crate::text::is_token_at;
use crate::text::prefix_of;
use crate::text::trailing_run;
use crate::text::used_in;

verus! {

/// Every suggested tag is an element of the catalog.
pub proof fn lemma_suggested_tag_in_catalog(cat: Seq<Seq<char>>, input: Seq<char>, k: int)
    requires
        0 <= k < spec_suggestions(cat, input).len(),
    ensures
        cat.contains(spec_suggestions(cat, input)[k]),
{
    lemma_eligible_of_entries(cat, input, k);
}

/// A tag that already stands in the input as a whitespace-delimited token
/// is never suggested.
pub proof fn lemma_suggested_tag_unused(cat: Seq<Seq<char>>, input: Seq<char>, k: int)
    requires
        0 <= k < spec_suggestions(cat, input).len(),
    ensures
        !used_in(input, spec_suggestions(cat, input)[k]),
{
    lemma_eligible_of_entries(cat, input, k);
}

/// The suggestion list never exceeds the cap.
pub proof fn lemma_suggestion_cap(cat: Seq<Seq<char>>, input: Seq<char>)
    ensures
        spec_suggestions(cat, input).len() <= SUGGESTION_CAP,
{
}

/// With no current token, eligibility depends only on which tags are used,
/// so two such inputs with the same used tags get the same suggestions.
proof fn lemma_eligible_of_congruent(cat: Seq<Seq<char>>, i1: Seq<char>, i2: Seq<char>)
    requires
        !has_cur_token(i1),
        !has_cur_token(i2),
        forall|t: Seq<char>| used_in(i1, t) <==> used_in(i2, t),
    ensures
        eligible_of(cat, i1) == eligible_of(cat, i2),
    decreases cat.len(),
{
    if cat.len() > 0 {
        lemma_eligible_of_congruent(cat.drop_last(), i1, i2);
        assert(used_in(i1, cat.last()) <==> used_in(i2, cat.last()));
        assert(eligible(cat.last(), i1) == eligible(cat.last(), i2));
    }
}

/// The tags of `cat` not yet used in `input`, in catalog order, uncapped.
pub open spec fn unused_of(cat: Seq<Seq<char>>, input: Seq<char>) -> Seq<Seq<char>>
    decreases cat.len(),
{
    if cat.len() == 0 {
        Seq::empty()
    } else {
        let rest = unused_of(cat.drop_last(), input);
        if !used_in(input, cat.last()) {
            rest.push(cat.last())
        } else {
            rest
        }
    }
}

/// With no current token there is nothing to match against, so
/// eligibility reduces to not being used yet.
proof fn lemma_eligible_is_unused(cat: Seq<Seq<char>>, input: Seq<char>)
    requires
        !has_cur_token(input),
    ensures
        eligible_of(cat, input) == unused_of(cat, input),
    decreases cat.len(),
{
    if cat.len() > 0 {
        lemma_eligible_is_unused(cat.drop_last(), input);
    }
}

/// When the input is empty or ends in whitespace, the suggestion list is
/// exactly the unused tags, in catalog order, capped.
pub proof fn lemma_no_cur_token_suggests_unused(cat: Seq<Seq<char>>, input: Seq<char>)
    requires
        !has_cur_token(input),
    ensures
        spec_suggestions(cat, input) == (if unused_of(cat, input).len() <= SUGGESTION_CAP {
            unused_of(cat, input)
        } else {
            unused_of(cat, input).take(SUGGESTION_CAP as int)
        }),
{
    lemma_eligible_is_unused(cat, input);
}

/// Which suggestions an input without a current token gets depends only
/// on which tags it uses: any two such inputs with the same used tags
/// yield the same suggestions.
pub proof fn lemma_no_cur_token_suggestions(cat: Seq<Seq<char>>, i1: Seq<char>, i2: Seq<char>)
    requires
        !has_cur_token(i1),
        !has_cur_token(i2),
        forall|t: Seq<char>| used_in(i1, t) <==> used_in(i2, t),
    ensures
        spec_suggestions(cat, i1) == spec_suggestions(cat, i2),
{
    lemma_eligible_of_congruent(cat, i1, i2);
}

/// Appending a whitespace character to an input leaves the set of used
/// tags as it was and leaves no current token behind.
pub proof fn lemma_trailing_space_preserves_used(s: Seq<char>, c: char)
    requires
        is_space_char(c),
    ensures
        forall|t: Seq<char>| used_in(s.push(c), t) <==> used_in(s, t),
        !has_cur_token(s.push(c)),
{
    let s2 = s.push(c);
    assert(s2.last() == c);
    assert(trailing_run(s2) == 0);
    assert forall|t: Seq<char>| used_in(s2, t) <==> used_in(s, t) by {
        if used_in(s2, t) {
            let (i, j) = choose|i: int, j: int| is_token_at(s2, i, j) && s2.subrange(i, j) == t;
            assert(j <= s.len()) by {
                if j > s.len() {
                    assert(!is_space_char(s2[s.len() as int]));
                }
            }
            assert(is_token_at(s, i, j)) by {
                assert(forall|k: int| i <= k < j ==> s[k] == s2[k]);
                if i > 0 {
                    assert(s[i - 1] == s2[i - 1]);
                }
                if j < s.len() {
                    assert(s[j] == s2[j]);
                }
            }
            assert(s.subrange(i, j) =~= t);
        }
        if used_in(s, t) {
            let (i, j) = choose|i: int, j: int| is_token_at(s, i, j) && s.subrange(i, j) == t;
            assert(is_token_at(s2, i, j)) by {
                assert(forall|k: int| i <= k < j ==> s2[k] == s[k]);
                if i > 0 {
                    assert(s2[i - 1] == s[i - 1]);
                }
                if j == s.len() {
                    assert(is_space_char(s2[j]));
                } else {
                    assert(s2[j] == s[j]);
                }
            }
            assert(s2.subrange(i, j) =~= t);
        }
    }
}

/// Trailing whitespace is irrelevant: once the input has no current token,
/// appending further whitespace does not change the suggestions.
pub proof fn lemma_trailing_space_ignored(cat: Seq<Seq<char>>, s: Seq<char>, c: char)
    requires
        !has_cur_token(s),
        is_space_char(c),
    ensures
        spec_suggestions(cat, s.push(c)) == spec_suggestions(cat, s),
{
    lemma_trailing_space_preserves_used(s, c);
    lemma_no_cur_token_suggestions(cat, s.push(c), s);
}

/// A replacement line always ends in whitespace, so feeding it back into
/// an update leaves no current token and commits the whole line as
/// prefix: the next tag can be typed or completed immediately.
pub proof fn lemma_completion_chains(p: Seq<char>, t: Seq<char>)
    ensures
        !has_cur_token(replacement_of(p, t)),
        prefix_of(replacement_of(p, t)) == replacement_of(p, t),
{
    let r = replacement_of(p, t);
    assert(r.last() == ' ');
    assert(trailing_run(r) == 0);
    assert(prefix_of(r) =~= r);
}

/// Updating twice with the same input leaves the whole engine state,
/// suggestions included, as one update leaves it.
pub proof fn lemma_update_idempotent(st: EngineModel, input: Seq<char>)
    ensures
        spec_update(spec_update(st, input), input) == spec_update(st, input),
{
}

} // verus!
