//! The autocompletion engine: a catalog of tags, the committed prefix of
//! the input line, and the current suggestion list, together with the
//! mathematical model that the contracts are stated over.

use vstd::prelude::*;
use vstd::string::StrSliceExecFns;
use vstd::string::StringExecFns;
use crate::text::cur_token;
use crate::text::find_cur_start;
use crate::text::has_cur_token;
use crate::text::has_substring;
use crate::text::is_space;
use crate::text::is_space_char;
use crate::text::is_used_token;
use crate::text::lemma_trailing_run_le_len;
use crate::text::prefix_of;
use crate::text::str_has_substring;
use crate::text::trailing_run;
use crate::text::used_in;

verus! {

/// At most this many suggestions are ever offered, to bound the size of
/// the rendered dropdown.
pub const SUGGESTION_CAP: usize = 15;

/// Ghost model of one engine: the catalog, the committed part of the
/// input, and the suggestion list, each as sequences of characters.
pub struct EngineModel {
    pub tags: Seq<Seq<char>>,
    pub prefix: Seq<char>,
    pub suggestions: Seq<Seq<char>>,
}

/// Whether catalog tag `t` may still be suggested for `input`: it must not
/// already stand in the input as a whitespace-delimited token, and while a
/// token is being typed it must contain that token as a substring.
pub open spec fn eligible(t: Seq<char>, input: Seq<char>) -> bool {
    &&& !used_in(input, t)
    &&& has_cur_token(input) ==> has_substring(t, cur_token(input))
}

/// The eligible tags of `cat` for `input`, in catalog order, uncapped.
pub open spec fn eligible_of(cat: Seq<Seq<char>>, input: Seq<char>) -> Seq<Seq<char>>
    decreases cat.len(),
{
    if cat.len() == 0 {
        Seq::empty()
    } else {
        let rest = eligible_of(cat.drop_last(), input);
        if eligible(cat.last(), input) {
            rest.push(cat.last())
        } else {
            rest
        }
    }
}

/// The suggestion list for `input`: the eligible tags in catalog order,
/// truncated to the cap.
pub open spec fn spec_suggestions(cat: Seq<Seq<char>>, input: Seq<char>) -> Seq<Seq<char>> {
    let all = eligible_of(cat, input);
    if all.len() <= SUGGESTION_CAP {
        all
    } else {
        all.take(SUGGESTION_CAP as int)
    }
}

/// The full effect of `update_input` on the model: the catalog is kept,
/// the prefix and the suggestion list are recomputed from the input alone.
pub open spec fn spec_update(st: EngineModel, input: Seq<char>) -> EngineModel {
    EngineModel {
        tags: st.tags,
        prefix: prefix_of(input),
        suggestions: spec_suggestions(st.tags, input),
    }
}

/// The replacement line built when tag `t` is accepted while the committed
/// prefix is `p`: the prefix, one separating space if the prefix is
/// nonempty and does not already end in whitespace, the tag, and one
/// trailing space.
pub open spec fn replacement_of(p: Seq<char>, t: Seq<char>) -> Seq<char> {
    if p.len() > 0 && !is_space_char(p.last()) {
        p + seq![' '] + t + seq![' ']
    } else {
        p + t + seq![' ']
    }
}

/// Every entry of `eligible_of` comes from the catalog and is eligible.
pub proof fn lemma_eligible_of_entries(cat: Seq<Seq<char>>, input: Seq<char>, k: int)
    requires
        0 <= k < eligible_of(cat, input).len(),
    ensures
        cat.contains(eligible_of(cat, input)[k]),
        eligible(eligible_of(cat, input)[k], input),
    decreases cat.len(),
{
    if cat.len() > 0 {
        let rest = eligible_of(cat.drop_last(), input);
        if k < rest.len() {
            lemma_eligible_of_entries(cat.drop_last(), input, k);
            assert(cat.drop_last().contains(rest[k]));
            let w = choose|i: int| 0 <= i < cat.drop_last().len() && cat.drop_last()[i] == rest[k];
            assert(cat[w] == rest[k]);
        } else {
            assert(cat.last() == cat[cat.len() - 1]);
        }
    }
}

/// `eligible_of` distributes over concatenation of catalogs.
pub proof fn lemma_eligible_of_concat(a: Seq<Seq<char>>, b: Seq<Seq<char>>, input: Seq<char>)
    ensures
        eligible_of(a + b, input) == eligible_of(a, input) + eligible_of(b, input),
    decreases b.len(),
{
    if b.len() == 0 {
        assert(a + b =~= a);
        assert(eligible_of(a, input) + eligible_of(b, input) =~= eligible_of(a, input));
    } else {
        lemma_eligible_of_concat(a, b.drop_last(), input);
        assert((a + b).drop_last() =~= a + b.drop_last());
        assert((a + b).last() == b.last());
        if eligible(b.last(), input) {
            assert(eligible_of(a, input) + eligible_of(b, input) =~= (eligible_of(a, input)
                + eligible_of(b.drop_last(), input)).push(b.last()));
        }
    }
}

/// Result of accepting a suggestion: either replace the whole input line
/// with the given text, or leave it untouched because nothing could be
/// completed.
pub enum Completion {
    Replace(String),
    Nothing,
}

/// The autocompletion engine. One instance serves one input session: the
/// catalog is fixed at construction, and `update_input` recomputes the
/// committed prefix and the suggestion list from the raw input line.
#[derive(Clone)]
pub struct FilePathCompleter<'a> {
    tags: Vec<&'a str>,
    suggestions: Vec<&'a str>,
    prefix: String,
}

impl<'a> View for FilePathCompleter<'a> {
    type V = EngineModel;

    closed spec fn view(&self) -> EngineModel {
        EngineModel {
            tags: self.tags.deep_view(),
            prefix: self.prefix@,
            suggestions: self.suggestions.deep_view(),
        }
    }
}

impl<'a> FilePathCompleter<'a> {
    /// A fresh engine for the given catalog, in the state reached by an
    /// update with the empty input: empty prefix, every tag suggested up
    /// to the cap.
    pub fn new(tags: Vec<&'a str>) -> (r: Self)
        ensures
            r@.tags == tags.deep_view(),
            r@.prefix == Seq::<char>::empty(),
            r@.suggestions == spec_suggestions(tags.deep_view(), Seq::<char>::empty()),
            r@.suggestions.len() <= SUGGESTION_CAP,
    {
        let mut r = FilePathCompleter { tags, suggestions: Vec::new(), prefix: String::new() };
        proof {
            reveal_strlit("");
            assert(""@ =~= Seq::<char>::empty());
        }
        r.update_input("");
        proof {
            assert(prefix_of(Seq::<char>::empty()) =~= Seq::<char>::empty());
        }
        r
    }

    /// Recompute prefix and suggestions for the new input line. Never
    /// fails; any input is acceptable.
    pub fn update_input(&mut self, input: &str)
        ensures
            final(self)@ == spec_update(old(self)@, input@),
            final(self)@.suggestions.len() <= SUGGESTION_CAP,
    {
        let n = input.unicode_len();
        let start = find_cur_start(input);
        proof {
            lemma_trailing_run_le_len(input@);
        }
        self.prefix = input.substring_char(0, start).to_owned();
        let ghost cat = self.tags.deep_view();
        let mut sugg: Vec<&'a str> = Vec::new();
        let mut idx: usize = 0;
        while idx < self.tags.len() && sugg.len() < SUGGESTION_CAP
            invariant
                idx <= self.tags.len(),
                cat == self.tags.deep_view(),
                sugg.deep_view() == eligible_of(cat.take(idx as int), input@),
                sugg.len() <= SUGGESTION_CAP,
                n == input@.len(),
                start == input@.len() - trailing_run(input@),
            decreases self.tags.len() - idx,
        {
            let tag: &'a str = self.tags[idx];
            let used = is_used_token(input, tag);
            let keep: bool = if used {
                false
            } else if start == n {
                true
            } else {
                let cur = input.substring_char(start, n);
                proof {
                    assert(cur@ == cur_token(input@));
                }
                str_has_substring(tag, cur)
            };
            proof {
                assert(keep == eligible(tag@, input@));
            }
            if keep {
                sugg.push(tag);
            }
            proof {
                let taken = cat.take((idx + 1) as int);
                assert(taken.drop_last() =~= cat.take(idx as int));
                assert(taken.last() == cat[idx as int]);
                assert(sugg.deep_view() =~= eligible_of(taken, input@));
            }
            idx = idx + 1;
        }
        proof {
            let all = eligible_of(cat, input@);
            if idx == self.tags.len() {
                assert(cat.take(idx as int) =~= cat);
            } else {
                assert(sugg.len() == SUGGESTION_CAP);
                lemma_eligible_of_concat(cat.take(idx as int), cat.skip(idx as int), input@);
                assert(cat.take(idx as int) + cat.skip(idx as int) =~= cat);
                assert(all == sugg.deep_view() + eligible_of(cat.skip(idx as int), input@));
                assert(all.take(SUGGESTION_CAP as int) =~= sugg.deep_view());
            }
            assert(sugg.deep_view() == spec_suggestions(cat, input@));
        }
        self.suggestions = sugg;
        proof {
            assert(self@.prefix == prefix_of(input@));
            assert(self@ == spec_update(old(self)@, input@));
        }
    }

    /// The current suggestion list, in catalog order, as owned strings.
    pub fn get_suggestions(&self) -> (r: Vec<String>)
        ensures
            r.deep_view() == self@.suggestions,
    {
        let mut out: Vec<String> = Vec::new();
        let mut i: usize = 0;
        while i < self.suggestions.len()
            invariant
                i <= self.suggestions.len(),
                out.deep_view() == self@.suggestions.take(i as int),
            decreases self.suggestions.len() - i,
        {
            let ghost prev = out.deep_view();
            let entry: &str = self.suggestions[i];
            let owned = String::from_str(entry);
            proof {
                assert(out.deep_view().len() == i as int);
            }
            out.push(owned);
            proof {
                assert forall|j: int| 0 <= j < prev.len() implies out.deep_view()[j] == prev[j] by {
                    assert(out@[j].deep_view() == prev[j]);
                }
                assert(out.deep_view()[i as int] == self@.suggestions[i as int]);
                assert(out.deep_view() =~= self@.suggestions.take((i + 1) as int));
            }
            i = i + 1;
        }
        proof {
            assert(self@.suggestions.take(self.suggestions.len() as int) =~= self@.suggestions);
        }
        out
    }

    /// The replacement for an accepted suggestion: the explicitly selected
    /// text if one was passed, otherwise the first current suggestion;
    /// nothing when the list is empty and no selection was passed.
    pub fn get_completion(&self, selected: Option<(usize, &str)>) -> (c: Completion)
        ensures
            match selected {
                Option::Some(sel) => c matches Completion::Replace(r) && r@ == replacement_of(
                    self@.prefix,
                    sel.1@,
                ),
                Option::None => {
                    if self@.suggestions.len() > 0 {
                        c matches Completion::Replace(r) && r@ == replacement_of(
                            self@.prefix,
                            self@.suggestions[0],
                        )
                    } else {
                        c is Nothing
                    }
                },
            },
    {
        let chosen: Option<&str> = match selected {
            Option::Some((_, t)) => Option::Some(t),
            Option::None => {
                if self.suggestions.len() > 0 {
                    Option::Some(self.suggestions[0])
                } else {
                    Option::None
                }
            },
        };
        match chosen {
            Option::None => Completion::Nothing,
            Option::Some(tag) => {
                let mut out = String::new();
                out.append(self.prefix.as_str());
                let pl = self.prefix.as_str().unicode_len();
                if pl > 0 && !is_space(self.prefix.as_str().get_char(pl - 1)) {
                    out.append(" ");
                }
                out.append(tag);
                out.append(" ");
                proof {
                    reveal_strlit(" ");
                    assert(" "@ =~= seq![' ']);
                    assert(out@ =~= replacement_of(self@.prefix, tag@));
                }
                Completion::Replace(out)
            },
        }
    }
}

/// The tag catalog offered at session start. It stands in for a catalog
/// assembled at runtime, so it is a function rather than a constant.
pub fn get_tags() -> (v: Vec<&'static str>)
    ensures
        v.len() == 5,
        v.deep_view()[0] == "adventure"@,
        v.deep_view()[1] == "action"@,
        v.deep_view()[2] == "mystery"@,
        v.deep_view()[3] == "romance"@,
        v.deep_view()[4] == "scifi"@,
{
    let mut v: Vec<&'static str> = Vec::new();
    v.push("adventure");
    v.push("action");
    v.push("mystery");
    v.push("romance");
    v.push("scifi");
    v
}

} // verus!
