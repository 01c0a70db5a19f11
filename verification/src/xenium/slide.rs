//! One slide as the spreadsheet records it.
use crate::scan::{
    first_index, lemma_filter_empty, lemma_filter_nonempty, lemma_filter_step,
    lemma_first_index, lemma_first_index_is, lemma_first_index_none,
};
use crate::text::same_text;
use vstd::prelude::*;

verus! {

/// A slide record: one row of the spreadsheet.
#[derive(Debug, PartialEq, Eq)]
pub struct Slide {
    /// The ID that the lab gave the slide.
    pub id: String,
    /// The name that was entered at the instrument.
    pub name: String,
    /// The run that the slide was part of.
    pub run_id: String,
    /// The lab that owns the slide.
    pub lab_name: String,
}

/// A slide record with each text as a sequence of characters.
pub struct SlideView {
    pub id: Seq<char>,
    pub name: Seq<char>,
    pub run_id: Seq<char>,
    pub lab_name: Seq<char>,
}

impl View for Slide {
    type V = SlideView;

    open spec fn view(&self) -> SlideView {
        SlideView { id: self.id@, name: self.name@, run_id: self.run_id@, lab_name: self.lab_name@ }
    }
}

impl DeepView for Slide {
    type V = SlideView;

    open spec fn deep_view(&self) -> SlideView {
        self@
    }
}

impl Clone for Slide {
    fn clone(&self) -> (copy: Slide)
        ensures
            copy@ == self@,
    {
        Slide {
            id: self.id.clone(),
            name: self.name.clone(),
            run_id: self.run_id.clone(),
            lab_name: self.lab_name.clone(),
        }
    }
}

impl Slide {
    /// The slide record with these four fields.
    pub fn new(id: String, name: String, run_id: String, lab_name: String) -> (slide: Slide)
        ensures
            slide@ == (SlideView { id: id@, name: name@, run_id: run_id@, lab_name: lab_name@ }),
    {
        Slide { id, name, run_id, lab_name }
    }
}

/// Whether a record belongs to the run `run_id`.
pub open spec fn of_run(run_id: Seq<char>) -> spec_fn(SlideView) -> bool {
    |slide: SlideView| slide.run_id == run_id
}

/// The records of `records` that belong to the run `run_id`, in their order.
pub open spec fn slides_of_run(records: Seq<SlideView>, run_id: Seq<char>) -> Seq<SlideView> {
    records.filter(of_run(run_id))
}

/// The records grouped by run: each run ID that occurs, with the records of
/// that run in their order.
pub open spec fn group_by_run(records: Seq<SlideView>) -> Map<Seq<char>, Seq<SlideView>> {
    Map::new(
        |run_id: Seq<char>|
            exists|i: int| 0 <= i < records.len() && (#[trigger] records[i]).run_id == run_id,
        |run_id: Seq<char>| slides_of_run(records, run_id),
    )
}

/// A run that the grouped records know has at least one record, and all its
/// records are of that run.
pub proof fn lemma_groups_hold_their_run(records: Seq<SlideView>, run_id: Seq<char>)
    requires
        group_by_run(records).contains_key(run_id),
    ensures
        group_by_run(records)[run_id].len() > 0,
        forall|k: int|
            0 <= k < group_by_run(records)[run_id].len() ==> (#[trigger] group_by_run(
                records,
            )[run_id][k]).run_id == run_id,
{
    let group = slides_of_run(records, run_id);
    lemma_filter_nonempty(records, of_run(run_id));
    let i = choose|i: int| 0 <= i < records.len() && (#[trigger] records[i]).run_id == run_id;
    assert(of_run(run_id)(records[i]));
    assert forall|k: int| 0 <= k < group.len() implies (#[trigger] group[k]).run_id == run_id by {
        records.lemma_filter_pred(of_run(run_id), k);
    }
}

/// The slides of one run.
struct SlideGroup {
    run_id: String,
    slides: Vec<Slide>,
}

/// The slide records of a spreadsheet by run ID. No run ID has two groups, and
/// no group is empty.
pub struct SlideIndex {
    groups: Vec<SlideGroup>,
}

impl View for SlideIndex {
    type V = Map<Seq<char>, Seq<SlideView>>;

    closed spec fn view(&self) -> Map<Seq<char>, Seq<SlideView>> {
        Map::new(
            |run_id: Seq<char>| self.position(run_id) is Some,
            |run_id: Seq<char>| self.groups[self.position(run_id).unwrap()].slides.deep_view(),
        )
    }
}

impl DeepView for SlideIndex {
    type V = Map<Seq<char>, Seq<SlideView>>;

    open spec fn deep_view(&self) -> Map<Seq<char>, Seq<SlideView>> {
        self@
    }
}

impl SlideIndex {
    #[verifier::type_invariant]
    spec fn well_formed(self) -> bool {
        &&& forall|g: int| 0 <= g < self.groups.len() ==> (#[trigger] self.groups[g]).slides.len() > 0
        &&& forall|g: int, h: int|
            0 <= g < h < self.groups.len() ==> (#[trigger] self.groups[g]).run_id@
                != (#[trigger] self.groups[h]).run_id@
    }

    /// The position of the group of the run `run_id`.
    spec fn position(&self, run_id: Seq<char>) -> Option<int> {
        Self::find_spec(self.groups@, run_id)
    }

    /// Each of the first `n` records has its group: `group_of` names it.
    spec fn covers(groups: Seq<SlideGroup>, all: Seq<SlideView>, n: int, group_of: Seq<int>) -> bool {
        &&& group_of.len() == n
        &&& forall|k: int|
            0 <= k < n ==> 0 <= #[trigger] group_of[k] < groups.len() && groups[group_of[k]].run_id@
                == all[k].run_id
    }

    /// Each group has a record among the first `n`: `firsts` names one.
    spec fn grounded(groups: Seq<SlideGroup>, all: Seq<SlideView>, n: int, firsts: Seq<int>) -> bool {
        &&& firsts.len() == groups.len()
        &&& forall|g: int|
            0 <= g < groups.len() ==> 0 <= #[trigger] firsts[g] < n && all[firsts[g]].run_id
                == groups[g].run_id@
    }

    /// Each group holds the records of its run, and no two groups are of one run.
    spec fn complete(groups: Seq<SlideGroup>, all: Seq<SlideView>) -> bool {
        &&& forall|g: int|
            0 <= g < groups.len() ==> (#[trigger] groups[g]).slides.deep_view() == slides_of_run(
                all,
                groups[g].run_id@,
            ) && groups[g].slides.len() > 0
        &&& forall|g: int, h: int|
            0 <= g < h < groups.len() ==> (#[trigger] groups[g]).run_id@
                != (#[trigger] groups[h]).run_id@
    }

    /// The index of these records: `group_by_run` of them.
    pub fn from_slides(records: &Vec<Slide>) -> (index: SlideIndex)
        ensures
            index@ == group_by_run(records.deep_view()),
    {
        let ghost all = records.deep_view();
        let ghost mut group_of: Seq<int> = Seq::empty();
        let ghost mut firsts: Seq<int> = Seq::empty();
        let mut groups: Vec<SlideGroup> = Vec::new();
        let mut i: usize = 0;
        while i < records.len()
            invariant
                i <= records.len(),
                all == records.deep_view(),
                Self::complete(groups@, all),
                Self::covers(groups@, all, i as int, group_of),
                Self::grounded(groups@, all, i as int, firsts),
            decreases records.len() - i,
        {
            let run_id = &records[i].run_id;
            assert(all[i as int].run_id == run_id@);
            match Self::find(&groups, run_id) {
                Some(g) => {
                    proof {
                        group_of = group_of.push(g as int);
                    }
                },
                None => {
                    let slides = Self::collect(records, run_id);
                    proof {
                        lemma_filter_nonempty(all, of_run(run_id@));
                        assert(of_run(run_id@)(all[i as int]));
                        group_of = group_of.push(groups.len() as int);
                        firsts = firsts.push(i as int);
                    }
                    groups.push(SlideGroup { run_id: run_id.clone(), slides });
                },
            }
            i = i + 1;
        }
        let index = SlideIndex { groups };
        proof {
            Self::lemma_groups_are_index(index, all, group_of, firsts);
        }
        index
    }

    /// Groups that hold the records of their runs, one for each run that
    /// occurs, are the index of the records.
    proof fn lemma_groups_are_index(
        index: SlideIndex,
        all: Seq<SlideView>,
        group_of: Seq<int>,
        firsts: Seq<int>,
    )
        requires
            Self::complete(index.groups@, all),
            Self::covers(index.groups@, all, all.len() as int, group_of),
            Self::grounded(index.groups@, all, all.len() as int, firsts),
        ensures
            index@ == group_by_run(all),
    {
        let built = index@;
        let wanted = group_by_run(all);
        assert forall|run_id: Seq<char>| built.contains_key(run_id) <==> wanted.contains_key(
            run_id,
        ) by {
            let found = Self::is_run(index.groups@, run_id);
            lemma_first_index(index.groups.len() as int, found);
            if built.contains_key(run_id) {
                let g = index.position(run_id).unwrap();
                let k = firsts[g];
                assert(all[k].run_id == run_id);
            }
            if wanted.contains_key(run_id) {
                let k = choose|k: int| 0 <= k < all.len() && (#[trigger] all[k]).run_id == run_id;
                assert(found(group_of[k]));
            }
        }
        assert forall|run_id: Seq<char>| built.contains_key(run_id) implies built[run_id]
            == wanted[run_id] by {
            let found = Self::is_run(index.groups@, run_id);
            lemma_first_index(index.groups.len() as int, found);
        }
        assert(built =~= wanted);
    }

    /// Whether the group at a position is that of the run `run_id`.
    spec fn is_run(groups: Seq<SlideGroup>, run_id: Seq<char>) -> spec_fn(int) -> bool {
        |g: int| groups[g].run_id@ == run_id
    }

    /// The position of the first group of `groups` with the run ID `run_id`.
    spec fn find_spec(groups: Seq<SlideGroup>, run_id: Seq<char>) -> Option<int> {
        first_index(groups.len() as int, Self::is_run(groups, run_id))
    }

    fn find(groups: &Vec<SlideGroup>, run_id: &String) -> (found: Option<usize>)
        ensures
            found.is_some() == Self::find_spec(groups@, run_id@).is_some(),
            found matches Some(g) ==> Self::find_spec(groups@, run_id@) == Some(g as int),
            found matches Some(g) ==> g < groups.len() && groups[g as int].run_id@ == run_id@,
            found is None ==> forall|g: int|
                0 <= g < groups.len() ==> (#[trigger] groups[g]).run_id@ != run_id@,
    {
        let ghost found_at = Self::is_run(groups@, run_id@);
        let mut g: usize = 0;
        while g < groups.len()
            invariant
                g <= groups.len(),
                found_at == Self::is_run(groups@, run_id@),
                forall|h: int| 0 <= h < g ==> !#[trigger] found_at(h),
            decreases groups.len() - g,
        {
            if same_text(&groups[g].run_id, run_id) {
                proof {
                    assert(found_at(g as int));
                    lemma_first_index_is(groups.len() as int, found_at, g as int);
                }
                return Some(g);
            }
            g = g + 1;
        }
        proof {
            lemma_first_index_none(groups.len() as int, found_at);
            assert forall|h: int| 0 <= h < groups.len() implies (#[trigger] groups[h]).run_id@
                != run_id@ by {
                assert(!found_at(h));
            }
        }
        None
    }

    /// The records of `records` with the run ID `run_id`, in their order.
    fn collect(records: &Vec<Slide>, run_id: &String) -> (slides: Vec<Slide>)
        ensures
            slides.deep_view() == slides_of_run(records.deep_view(), run_id@),
    {
        let ghost all = records.deep_view();
        let ghost keep = of_run(run_id@);
        let mut slides: Vec<Slide> = Vec::new();
        let mut j: usize = 0;
        proof {
            lemma_filter_empty(all.take(0), keep);
        }
        while j < records.len()
            invariant
                j <= records.len(),
                all == records.deep_view(),
                keep == of_run(run_id@),
                slides.deep_view() == all.take(j as int).filter(keep),
            decreases records.len() - j,
        {
            proof {
                lemma_filter_step(all, keep, j as int);
            }
            if same_text(&records[j].run_id, run_id) {
                let ghost before = slides.deep_view();
                slides.push(records[j].clone());
                assert(slides.deep_view() == before.push(all[j as int]));
            }
            j = j + 1;
        }
        assert(all.take(records.len() as int) == all);
        slides
    }

    /// The slides of the run `run_id`, if the index holds any.
    pub fn get(&self, run_id: &str) -> (found: Option<&Vec<Slide>>)
        ensures
            match found {
                Some(slides) => self@.contains_key(run_id@) && slides.deep_view() == self@[run_id@],
                None => !self@.contains_key(run_id@),
            },
    {
        let key = run_id.to_owned();
        match Self::find(&self.groups, &key) {
            Some(g) => Some(&self.groups[g].slides),
            None => None,
        }
    }
}

} // verus!
