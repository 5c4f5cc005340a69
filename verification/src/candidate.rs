//! Candidate files: where a staged file stands in for the one of the host.
use vstd::prelude::*;

use crate::encoding::{json_entries, json_object, pair_texts, read_json_object, write_json_object};
use crate::order::{
    built_map, entry_keys, lemma_built_map, text_before, OrderedMap, Ranked,
};
use crate::text::{opt_text, split_first, split_once, texts};

verus! {

/// The candidate file for each path of the host that has one.
pub type Mappings = OrderedMap<String, String>;

/// What pairs of texts hold when they are put into a map one after the other.
pub open spec fn pairs_map(pairs: Seq<(Seq<char>, Seq<char>)>) -> Map<Seq<char>, Seq<char>>
    decreases pairs.len(),
{
    if pairs.len() == 0 {
        Map::empty()
    } else {
        pairs_map(pairs.drop_last()).insert(pairs.last().0, pairs.last().1)
    }
}

/// The mappings that a text stands for; a text that cannot be read stands for none.
pub open spec fn mappings_of(text: Option<Seq<char>>) -> Map<Seq<char>, Seq<char>> {
    match text {
        None => Map::empty(),
        Some(t) => match json_entries(t) {
            None => Map::empty(),
            Some(pairs) => pairs_map(pairs),
        },
    }
}

/// Reads the mappings that a sandbox hands to the commands in it.
pub fn read_mappings(text: &Option<String>) -> (r: Mappings)
    ensures
        r@ == mappings_of(opt_text(*text)),
{
    let mut r: Mappings = OrderedMap::new();
    let pairs = match text {
        None => return r,
        Some(t) => match read_json_object(t.as_str()) {
            None => return r,
            Some(pairs) => pairs,
        },
    };
    let ghost all = pair_texts(pairs@);
    let mut i: usize = 0;
    while i < pairs.len()
        invariant
            i <= pairs.len(),
            all == pair_texts(pairs@),
            r@ == pairs_map(all.take(i as int)),
        decreases pairs.len() - i,
    {
        proof {
            assert(all.take(i + 1).drop_last() =~= all.take(i as int));
            assert(all.take(i + 1).last() == (pairs@[i as int].0@, pairs@[i as int].1@));
        }
        r.insert(pairs[i].0.clone(), pairs[i].1.clone());
        i += 1;
    }
    assert(all.take(pairs.len() as int) =~= all);
    r
}

proof fn lemma_pairs_of_entries(entries: Seq<(String, String)>)
    ensures
        built_map(entries) == pairs_map(pair_texts(entries)),
    decreases entries.len(),
{
    if entries.len() > 0 {
        lemma_pairs_of_entries(entries.drop_last());
        assert(pair_texts(entries).drop_last() =~= pair_texts(entries.drop_last()));
    }
}

/// Writes mappings for the commands in a sandbox. What is written is read back.
pub fn write_mappings(mappings: &Mappings) -> (r: String)
    ensures
        r@ == json_object(pair_texts(mappings.entry_seq())),
        mappings_of(Some(r@)) == mappings@,
{
    let count = mappings.len();
    let ghost entries = mappings.entry_seq();
    let mut pairs: Vec<(String, String)> = Vec::new();
    let mut i: usize = 0;
    while i < count
        invariant
            i <= count,
            count == entries.len(),
            entries == mappings.entry_seq(),
            pairs@.len() == i,
            forall|k: int| 0 <= k < i ==> #[trigger] pairs@[k] == entries[k],
        decreases count - i,
    {
        pairs.push((mappings.key_at(i).clone(), mappings.value_at(i).clone()));
        i += 1;
    }
    proof {
        assert(pairs@ =~= entries);
        lemma_built_map(entries);
        lemma_pairs_of_entries(entries);
        let shown = pair_texts(pairs@);
        assert forall|a: int, b: int| 0 <= a < b < shown.len() implies text_before(
            (#[trigger] shown[a]).0,
            (#[trigger] shown[b]).0,
        ) by {
            assert(String::rank_before(
                entry_keys(entries)[a].rank(),
                entry_keys(entries)[b].rank(),
            ));
        }
    }
    write_json_object(&pairs)
}

/// What the host resolves an argument to, and what it resolves the part after the first equals
/// sign to; none for what is no path of the host.
pub struct CanonicalForms {
    pub whole: Option<String>,
    pub value: Option<String>,
}

/// The candidate file for a path, looked up as it is written and then as the host resolves it.
pub open spec fn mapped(
    mappings: Map<Seq<char>, Seq<char>>,
    path: Seq<char>,
    canonical: Option<Seq<char>>,
) -> Option<Seq<char>> {
    if mappings.dom().contains(path) {
        Some(mappings[path])
    } else {
        match canonical {
            Some(resolved) if mappings.dom().contains(resolved) => Some(mappings[resolved]),
            _ => None,
        }
    }
}

/// An argument with the path in it, if it is one, turned to its candidate file. The path may
/// stand alone or after the first equals sign.
pub open spec fn rewritten(
    mappings: Map<Seq<char>, Seq<char>>,
    argument: Seq<char>,
    forms: CanonicalForms,
) -> Seq<char> {
    match mapped(mappings, argument, opt_text(forms.whole)) {
        Some(candidate) => candidate,
        None => match split_first(argument, '=') {
            Some((prefix, path)) => match mapped(mappings, path, opt_text(forms.value)) {
                Some(candidate) => prefix + "="@ + candidate,
                None => argument,
            },
            None => argument,
        },
    }
}

/// The candidate file for a path, if there is one.
pub fn mapped_candidate_path(
    mappings: &Mappings,
    path: &String,
    canonical: &Option<String>,
) -> (r: Option<String>)
    ensures
        opt_text(r) == mapped(mappings@, path@, opt_text(*canonical)),
{
    if let Some(candidate) = mappings.get(path) {
        return Some(candidate.clone());
    }
    match canonical {
        Some(resolved) => match mappings.get(resolved) {
            Some(candidate) => Some(candidate.clone()),
            None => None,
        },
        None => None,
    }
}

/// Turns the path in an argument to its candidate file.
pub fn rewrite_argument(
    mappings: &Mappings,
    argument: &String,
    forms: &CanonicalForms,
) -> (r: String)
    ensures
        r@ == rewritten(mappings@, argument@, *forms),
{
    if let Some(candidate) = mapped_candidate_path(mappings, argument, &forms.whole) {
        return candidate;
    }
    if let Some((prefix, path)) = split_once(argument.as_str(), '=') {
        if let Some(candidate) = mapped_candidate_path(mappings, &path, &forms.value) {
            return prefix.concat("=").concat(candidate.as_str());
        }
    }
    argument.clone()
}

/// Arguments with the paths in them turned to their candidate files.
pub open spec fn all_rewritten(
    mappings: Map<Seq<char>, Seq<char>>,
    argv: Seq<Seq<char>>,
    forms: Seq<CanonicalForms>,
) -> Seq<Seq<char>> {
    Seq::new(argv.len(), |i: int| rewritten(mappings, argv[i], forms[i]))
}

/// Turns the paths in arguments to their candidate files. `text` holds the mappings that the
/// sandbox handed over.
pub fn rewrite_candidate_arguments(
    text: &Option<String>,
    argv: &Vec<String>,
    forms: &Vec<CanonicalForms>,
) -> (r: Vec<String>)
    requires
        forms.len() == argv.len(),
    ensures
        texts(r@) == all_rewritten(mappings_of(opt_text(*text)), texts(argv@), forms@),
{
    let mappings = read_mappings(text);
    let mut r: Vec<String> = Vec::new();
    let mut i: usize = 0;
    while i < argv.len()
        invariant
            i <= argv.len(),
            forms.len() == argv.len(),
            mappings@ == mappings_of(opt_text(*text)),
            r@.len() == i,
            forall|k: int|
                0 <= k < i ==> (#[trigger] r@[k])@ == rewritten(mappings@, argv@[k]@, forms@[k]),
        decreases argv.len() - i,
    {
        r.push(rewrite_argument(&mappings, &argv[i], &forms[i]));
        i += 1;
    }
    assert(texts(r@) =~= all_rewritten(mappings@, texts(argv@), forms@));
    r
}

/// An argument that names no candidate path, neither alone nor after its first equals sign, stays
/// as it is.
pub proof fn law_other_arguments_stay(
    mappings: Map<Seq<char>, Seq<char>>,
    argument: Seq<char>,
    forms: CanonicalForms,
)
    requires
        mapped(mappings, argument, opt_text(forms.whole)) is None,
        split_first(argument, '=') matches Some((prefix, path)) ==> mapped(
            mappings,
            path,
            opt_text(forms.value),
        ) is None,
    ensures
        rewritten(mappings, argument, forms) == argument,
{
}

} // verus!
