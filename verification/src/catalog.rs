//! Courses, and which of them a run covers.

use vstd::prelude::*;
use crate::text::contains_string;

verus! {

/// A course of the catalog. Courses are synchronised one after another.
#[derive(Debug, PartialEq, Eq)]
pub struct Course {
    pub id: String,
    pub display_name: String,
}

/// The mathematical content of a [`Course`].
pub struct CourseView {
    pub id: Seq<char>,
    pub display_name: Seq<char>,
}

impl View for Course {
    type V = CourseView;

    open spec fn view(&self) -> CourseView {
        CourseView { id: self.id@, display_name: self.display_name@ }
    }
}

impl DeepView for Course {
    type V = CourseView;

    open spec fn deep_view(&self) -> CourseView {
        self@
    }
}

impl Clone for Course {
    fn clone(&self) -> (r: Self)
        ensures
            r == *self,
    {
        Course { id: self.id.clone(), display_name: self.display_name.clone() }
    }
}

/// Whether a run covers the course `id`: an empty list of wanted ids covers every
/// course, any other list covers the courses it names.
pub open spec fn is_selected(id: Seq<char>, wanted: Seq<Seq<char>>) -> bool {
    wanted.len() == 0 || wanted.contains(id)
}

/// The test that a course passes when the run covers it.
pub open spec fn covered(wanted: Seq<Seq<char>>) -> spec_fn(CourseView) -> bool {
    |c: CourseView| is_selected(c.id, wanted)
}

/// Whether a run with the given list of wanted ids covers the course `id`.
pub fn course_selected(id: &str, wanted: &Vec<String>) -> (r: bool)
    ensures
        r == is_selected(id@, wanted.deep_view()),
{
    wanted.len() == 0 || contains_string(wanted, id)
}

/// Keeps the courses that the run covers, in catalog order.
pub fn select_courses(catalog: Vec<Course>, wanted: &Vec<String>) -> (kept: Vec<Course>)
    ensures
        kept.deep_view() == catalog.deep_view().filter(covered(wanted.deep_view())),
{
    let ghost all = catalog.deep_view();
    let ghost raw = catalog@;
    let ghost pass = covered(wanted.deep_view());
    let mut kept: Vec<Course> = Vec::new();
    for course in it: catalog
        invariant
            it.seq() == raw,
            all == Seq::new(raw.len(), |i: int| raw[i]@),
            pass == covered(wanted.deep_view()),
            kept.deep_view() == all.take(it.index()).filter(pass),
    {
        let ghost k = it.index();
        assert(all.take(k + 1).drop_last() =~= all.take(k));
        assert(all.take(k + 1).filter(pass) == if pass(all[k]) {
            all.take(k).filter(pass).push(all[k])
        } else {
            all.take(k).filter(pass)
        }) by {
            reveal(Seq::filter);
        }
        if course_selected(course.id.as_str(), wanted) {
            kept.push(course);
        }
    }
    assert(all.take(raw.len() as int) =~= all);
    kept
}

} // verus!
