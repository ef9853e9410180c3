//! Categorical statistics: how often each label occurs among metric results.
use vstd::prelude::*;
use crate::text::{lex_less, push_str, str_less, strings_view};

verus! {

/// Number of occurrences of `label` in `labels`.
pub open spec fn occurrences(labels: Seq<Seq<char>>, label: Seq<char>) -> nat
    decreases labels.len(),
{
    if labels.len() == 0 {
        0
    } else {
        occurrences(labels.drop_last(), label) + if labels.last() == label { 1nat } else { 0nat }
    }
}

/// Sum of the counts of all entries.
pub open spec fn count_total(counts: Seq<(String, usize)>) -> nat
    decreases counts.len(),
{
    if counts.len() == 0 {
        0
    } else {
        count_total(counts.drop_last()) + counts.last().1 as nat
    }
}

/// Sum of the counts of the entries labelled `label`.
pub open spec fn count_of_label(counts: Seq<(String, usize)>, label: Seq<char>) -> nat
    decreases counts.len(),
{
    if counts.len() == 0 {
        0
    } else {
        count_of_label(counts.drop_last(), label) + if counts.last().0@ == label { counts.last().1 as nat } else { 0nat }
    }
}

/// No label occurs in two entries.
pub open spec fn labels_distinct(counts: Seq<(String, usize)>) -> bool {
    forall|i: int, j: int| 0 <= i < counts.len() && 0 <= j < counts.len() && i != j ==> counts[i].0@ != counts[j].0@
}

/// Categorical statistics (frequency distribution).
#[derive(Debug, Clone)]
pub struct CategoricalStats {
    /// One entry per distinct label, with its number of occurrences. (A list
    /// rather than a `HashMap`: vstd specifies `HashMap` only for keys it
    /// models, and `String` is not one.)
    pub counts: Vec<(String, usize)>,
    /// Number of values counted.
    pub total: usize,
}

/// `a` ranks before `b` when the most frequent entry is wanted: higher count
/// first, then the label that comes first.
pub open spec fn ranks_before(a: (Seq<char>, nat), b: (Seq<char>, nat)) -> bool {
    a.1 > b.1 || (a.1 == b.1 && lex_less(a.0, b.0))
}

proof fn lemma_count_of_label_update(counts: Seq<(String, usize)>, j: int, entry: (String, usize), label: Seq<char>)
    requires
        0 <= j < counts.len(),
        entry.0@ == counts[j].0@,
    ensures
        count_of_label(counts.update(j, entry), label) + (if counts[j].0@ == label { counts[j].1 as nat } else { 0nat })
            == count_of_label(counts, label) + (if counts[j].0@ == label { entry.1 as nat } else { 0nat }),
        count_total(counts.update(j, entry)) + counts[j].1 == count_total(counts) + entry.1,
    decreases counts.len(),
{
    if j == counts.len() - 1 {
        assert(counts.update(j, entry).drop_last() =~= counts.drop_last());
    } else {
        assert(counts.update(j, entry).drop_last() =~= counts.drop_last().update(j, entry));
        lemma_count_of_label_update(counts.drop_last(), j, entry, label);
    }
}

proof fn lemma_count_of_absent(counts: Seq<(String, usize)>, label: Seq<char>)
    requires
        forall|i: int| 0 <= i < counts.len() ==> counts[i].0@ != label,
    ensures
        count_of_label(counts, label) == 0,
    decreases counts.len(),
{
    if counts.len() > 0 {
        lemma_count_of_absent(counts.drop_last(), label);
    }
}

proof fn lemma_count_of_present(counts: Seq<(String, usize)>, j: int)
    requires
        labels_distinct(counts),
        0 <= j < counts.len(),
    ensures
        count_of_label(counts, counts[j].0@) == counts[j].1,
    decreases counts.len(),
{
    let label = counts[j].0@;
    if j == counts.len() - 1 {
        lemma_count_of_absent(counts.drop_last(), label);
    } else {
        lemma_count_of_present(counts.drop_last(), j);
    }
}

/// The index of the entry labelled `label`, if there is one.
fn find_label(counts: &Vec<(String, usize)>, label: &String) -> (r: Option<usize>)
    ensures
        r matches Some(j) ==> j < counts.len() && counts@[j as int].0@ == label@,
        r is None ==> forall|k: int| 0 <= k < counts.len() ==> counts@[k].0@ != label@,
{
    let mut j: usize = 0;
    while j < counts.len()
        invariant
            j <= counts.len(),
            forall|k: int| 0 <= k < j ==> counts@[k].0@ != label@,
        decreases counts.len() - j,
    {
        if counts[j].0 == *label {
            return Some(j);
        }
        j = j + 1;
    }
    None
}

impl CategoricalStats {
    /// Well-formed statistics: one entry per label, each counting at least one value.
    pub open spec fn wf(&self) -> bool {
        &&& labels_distinct(self.counts@)
        &&& forall|i: int| 0 <= i < self.counts.len() ==> self.counts@[i].1 > 0
    }

    /// Counts how often each label occurs in `labels`.
    pub fn from_labels(labels: &Vec<String>) -> (r: CategoricalStats)
        ensures
            r.wf(),
            r.total == labels.len(),
            forall|l: Seq<char>| #[trigger] count_of_label(r.counts@, l) == occurrences(strings_view(labels@), l),
            forall|i: int| 0 <= i < r.counts.len() ==> r.counts@[i].1 == occurrences(strings_view(labels@), #[trigger] r.counts@[i].0@),
            count_total(r.counts@) == r.total,
    {
        let ghost views = strings_view(labels@);
        let mut counts: Vec<(String, usize)> = Vec::new();
        let mut i: usize = 0;
        while i < labels.len()
            invariant
                i <= labels.len(),
                views == strings_view(labels@),
                labels_distinct(counts@),
                forall|k: int| 0 <= k < counts.len() ==> counts@[k].1 > 0,
                forall|k: int| 0 <= k < counts.len() ==> counts@[k].1 <= i,
                forall|l: Seq<char>| #[trigger] count_of_label(counts@, l) == occurrences(views.take(i as int), l),
                count_total(counts@) == i,
            decreases labels.len() - i,
        {
            let label = &labels[i];
            let ghost before = counts@;
            assert(views.take(i + 1).drop_last() =~= views.take(i as int));
            assert(views.take(i + 1).last() == label@);
            let found = find_label(&counts, label);
            match found {
                Some(j) => {
                    let c: usize = counts[j].1;
                    let name = counts[j].0.clone();
                    counts.set(j, (name, c + 1));
                    proof {
                        assert forall|l: Seq<char>| #[trigger] count_of_label(counts@, l) == occurrences(views.take(i + 1), l) by {
                            lemma_count_of_label_update(before, j as int, (name, (c + 1) as usize), l);
                        }
                        lemma_count_of_label_update(before, j as int, (name, (c + 1) as usize), label@);
                        assert forall|a: int, b: int| 0 <= a < counts.len() && 0 <= b < counts.len() && a != b implies counts@[a].0@ != counts@[b].0@ by {
                            assert(counts@[a].0@ == before[a].0@);
                            assert(counts@[b].0@ == before[b].0@);
                        }
                    }
                },
                None => {
                    counts.push((label.clone(), 1));
                    proof {
                        assert(counts@.drop_last() =~= before);
                        assert(counts@.last().0@ == label@);
                        assert(counts@.last().1 == 1);
                        assert forall|l: Seq<char>| #[trigger] count_of_label(counts@, l) == occurrences(views.take(i + 1), l) by {
                            assert(count_of_label(counts@, l) == count_of_label(before, l) + if label@ == l { 1nat } else { 0nat });
                            assert(occurrences(views.take(i + 1), l) == occurrences(views.take(i as int), l) + if label@ == l { 1nat } else { 0nat });
                        }
                    }
                },
            }
            i = i + 1;
        }
        assert(views.take(labels.len() as int) =~= views);
        let r = CategoricalStats { counts, total: labels.len() };
        assert forall|k: int| 0 <= k < r.counts.len() implies r.counts@[k].1 == occurrences(views, #[trigger] r.counts@[k].0@) by {
            lemma_count_of_present(r.counts@, k);
        }
        r
    }

    /// The number of values labelled `label`.
    pub fn count_of(&self, label: &str) -> (r: usize)
        requires
            labels_distinct(self.counts@),
        ensures
            r == count_of_label(self.counts@, label@),
    {
        let key = label.to_owned();
        match find_label(&self.counts, &key) {
            Some(j) => {
                proof {
                    lemma_count_of_present(self.counts@, j as int);
                }
                self.counts[j].1
            },
            None => {
                proof {
                    lemma_count_of_absent(self.counts@, label@);
                }
                0
            },
        }
    }

    /// The most frequent label with its count; among equally frequent labels
    /// the one that comes first. `None` when nothing was counted.
    pub fn dominant_category(&self) -> (r: Option<(String, usize)>)
        ensures
            r is None <==> self.counts.len() == 0,
            r matches Some(best) ==> {
                &&& exists|i: int| 0 <= i < self.counts.len() && self.counts@[i].0@ == best.0@ && #[trigger] self.counts@[i].1 == best.1
                &&& forall|i: int| 0 <= i < self.counts.len() ==> !ranks_before(
                    ((#[trigger] self.counts@[i]).0@, self.counts@[i].1 as nat),
                    (best.0@, best.1 as nat),
                )
            },
    {
        if self.counts.len() == 0 {
            return None;
        }
        let mut best: usize = 0;
        let mut j: usize = 1;
        proof {
            crate::text::lemma_lex_irreflexive(self.counts@[0].0@);
        }
        while j < self.counts.len()
            invariant
                1 <= j <= self.counts.len(),
                best < j,
                forall|i: int| 0 <= i < j ==> !ranks_before(
                    ((#[trigger] self.counts@[i]).0@, self.counts@[i].1 as nat),
                    (self.counts@[best as int].0@, self.counts@[best as int].1 as nat),
                ),
            decreases self.counts.len() - j,
        {
            let cj: usize = self.counts[j].1;
            let cb: usize = self.counts[best].1;
            if cj > cb || (cj == cb && str_less(self.counts[j].0.as_str(), self.counts[best].0.as_str())) {
                proof {
                    let nb = (self.counts@[j as int].0@, self.counts@[j as int].1 as nat);
                    assert forall|i: int| 0 <= i < j + 1 implies !ranks_before(
                        ((#[trigger] self.counts@[i]).0@, self.counts@[i].1 as nat),
                        nb,
                    ) by {
                        if i < j {
                            crate::text::lemma_lex_transitive(self.counts@[i].0@, nb.0, self.counts@[best as int].0@);
                        } else {
                            crate::text::lemma_lex_irreflexive(nb.0);
                        }
                    }
                }
                best = j;
            }
            j = j + 1;
        }
        let label = self.counts[best].0.clone();
        Some((label, self.counts[best].1))
    }
}

/// The dominant category of the statistics counted from `labels` is a most
/// frequent label: no label occurs more often, and a label that occurs as
/// often does not come before it.
pub proof fn lemma_dominant_is_most_frequent(labels: Seq<String>, stats: CategoricalStats, best: (String, usize))
    requires
        forall|l: Seq<char>| #[trigger] count_of_label(stats.counts@, l) == occurrences(strings_view(labels), l),
        stats.wf(),
        exists|i: int| 0 <= i < stats.counts.len() && stats.counts@[i].0@ == best.0@ && #[trigger] stats.counts@[i].1 == best.1,
        forall|i: int| 0 <= i < stats.counts.len() ==> !ranks_before(
            ((#[trigger] stats.counts@[i]).0@, stats.counts@[i].1 as nat),
            (best.0@, best.1 as nat),
        ),
    ensures
        occurrences(strings_view(labels), best.0@) == best.1,
        forall|l: Seq<char>| !ranks_before(
            (l, #[trigger] occurrences(strings_view(labels), l)),
            (best.0@, best.1 as nat),
        ),
{
    let views = strings_view(labels);
    let i: int = choose|i: int| 0 <= i < stats.counts.len() && stats.counts@[i].0@ == best.0@ && #[trigger] stats.counts@[i].1 == best.1;
    lemma_count_of_present(stats.counts@, i);
    assert(count_of_label(stats.counts@, best.0@) == best.1);
    assert forall|l: Seq<char>| !ranks_before(
        (l, #[trigger] occurrences(views, l)),
        (best.0@, best.1 as nat),
    ) by {
        if exists|k: int| 0 <= k < stats.counts.len() && stats.counts@[k].0@ == l {
            let k: int = choose|k: int| 0 <= k < stats.counts.len() && stats.counts@[k].0@ == l;
            lemma_count_of_present(stats.counts@, k);
            assert(count_of_label(stats.counts@, l) == occurrences(views, l));
            assert(!ranks_before((stats.counts@[k].0@, stats.counts@[k].1 as nat), (best.0@, best.1 as nat)));
        } else {
            lemma_count_of_absent(stats.counts@, l);
            assert(count_of_label(stats.counts@, l) == occurrences(views, l));
        }
    }
}

/// `(label, count)` is the dominant entry of `stats`: an entry that no other
/// entry ranks before (higher count, or equal count and earlier label).
pub open spec fn is_dominant(stats: CategoricalStats, label: Seq<char>, count: usize) -> bool {
    &&& exists|i: int| 0 <= i < stats.counts.len() && stats.counts@[i].0@ == label && #[trigger] stats.counts@[i].1 == count
    &&& forall|i: int| 0 <= i < stats.counts.len() ==> !ranks_before(
        ((#[trigger] stats.counts@[i]).0@, stats.counts@[i].1 as nat),
        (label, count as nat),
    )
}

/// Summarizes categorical statistics as their dominant label and its share:
/// `"{label} ({percent}%)"`, where `percent` renders the label's count out of
/// the total; `"N/A"` when nothing was counted.
pub fn format_categorical<F: Fn(usize, usize) -> String>(cs: &CategoricalStats, percent: &F) -> (r: String)
    requires
        forall|count: usize, total: usize| call_requires(*percent, (count, total)),
    ensures
        cs.counts.len() == 0 ==> r@ == "N/A"@,
        cs.counts.len() > 0 ==> exists|label: Seq<char>, count: usize, p: String|
            #![trigger is_dominant(*cs, label, count), call_ensures(*percent, (count, cs.total), p)]
        {
            &&& is_dominant(*cs, label, count)
            &&& call_ensures(*percent, (count, cs.total), p)
            &&& r@ == label + " ("@ + p@ + "%)"@
        },
{
    match cs.dominant_category() {
        None => "N/A".to_owned(),
        Some((label, count)) => {
            let ghost name = label@;
            assert(is_dominant(*cs, name, count));
            let p = percent(count, cs.total);
            let mut s = label;
            push_str(&mut s, " (");
            push_str(&mut s, p.as_str());
            push_str(&mut s, "%)");
            assert(call_ensures(*percent, (count, cs.total), p));
            assert(s@ == name + " ("@ + p@ + "%)"@);
            s
        },
    }
}

} // verus!
