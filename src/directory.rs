use crate::responses;
use crate::responses::{CourseResponse, TimeTableResponse};
use vstd::prelude::*;

verus! {

/// The id, code and name of a course of the directory.
#[derive(Debug)]
pub struct CourseName {
    pub id: String,
    pub code: String,
    pub name: String,
}

impl CourseName {
    /// The id, code and name of a directory entry.
    pub fn from_response_course(course: &responses::Course) -> (r: CourseName)
        ensures
            r.id@ == course.id@,
            r.code@ == course.code@,
            r.name@ == course.name@,
    {
        CourseName { id: course.id.clone(), code: course.code.clone(), name: course.name.clone() }
    }
}

/// Whether `n` names the directory entry `c`.
pub open spec fn names_entry(n: CourseName, c: responses::Course) -> bool {
    n.id@ == c.id@ && n.code@ == c.code@ && n.name@ == c.name@
}

/// A timetable with the course directory it was read against, and the names of its courses.
#[derive(Debug)]
pub struct Client {
    pub id: String,
    pub ttr: TimeTableResponse,
    pub cr: CourseResponse,
    pub courses: Vec<CourseName>,
}

impl Client {
    /// A client for timetable `id` with the fetched timetable and course directory, and the
    /// names of all the directory's courses.
    pub fn new(id: String, ttr: TimeTableResponse, cr: CourseResponse) -> (r: Client)
        ensures
            r.id == id,
            r.ttr == ttr,
            r.cr == cr,
            r.courses@.len() == cr.courses@.len(),
            forall|k: int| 0 <= k < cr.courses@.len() ==> names_entry(#[trigger] r.courses@[k], cr.courses@[k]),
    {
        let mut client = Client { id, ttr, cr, courses: Vec::new() };
        client.parse_courses();
        client
    }

    /// Lists the names of all the directory's courses, in order.
    pub fn parse_courses(&mut self)
        ensures
            final(self).cr == old(self).cr,
            final(self).id == old(self).id,
            final(self).ttr == old(self).ttr,
            final(self).courses@.len() == old(self).cr.courses@.len(),
            forall|k: int| 0 <= k < old(self).cr.courses@.len() ==> names_entry(
                #[trigger] final(self).courses@[k],
                old(self).cr.courses@[k],
            ),
    {
        let mut names: Vec<CourseName> = Vec::new();
        let mut i: usize = 0;
        while i < self.cr.courses.len()
            invariant
                i <= self.cr.courses@.len(),
                names@.len() == i,
                forall|k: int| 0 <= k < i ==> names_entry(#[trigger] names@[k], self.cr.courses@[k]),
            decreases self.cr.courses@.len() - i,
        {
            names.push(CourseName::from_response_course(&self.cr.courses[i]));
            i = i + 1;
        }
        self.courses = names;
    }
}

/// The id at the end of a timetable link: all that follows its last `/`.
pub open spec fn link_id(link: Seq<char>) -> Seq<char>
    decreases link.len(),
{
    if link.len() == 0 {
        link
    } else if link.last() == '/' {
        Seq::empty()
    } else {
        link_id(link.drop_last()).push(link.last())
    }
}

/// The id at the end of a timetable link: all that follows its last `/`, or the whole link.
pub fn get_id_from_link(link: &str) -> (r: Option<String>)
    ensures
        r matches Some(id) && id@ == link_id(link@),
{
    let n = link.unicode_len();
    let mut k: usize = n;
    proof {
        assert(link@.subrange(0, n as int) == link@);
        assert(link_id(link@) + link@.subrange(n as int, n as int) =~= link_id(link@));
    }
    while k > 0 && link.get_char(k - 1) != '/'
        invariant
            k <= n,
            n == link@.len(),
            link_id(link@) == link_id(link@.subrange(0, k as int)) + link@.subrange(k as int, n as int),
        decreases k,
    {
        proof {
            let p = link@.subrange(0, k as int);
            assert(p.drop_last() == link@.subrange(0, k - 1));
            assert(p.last() == link@[k - 1]);
            assert(link@.subrange(k - 1, n as int) =~= seq![link@[k - 1]] + link@.subrange(k as int, n as int));
            assert(link_id(p.drop_last()).push(p.last()) + link@.subrange(k as int, n as int)
                =~= link_id(p.drop_last()) + link@.subrange(k - 1, n as int));
        }
        k = k - 1;
    }
    proof {
        let p = link@.subrange(0, k as int);
        if k > 0 {
            assert(p.last() == link@[k - 1]);
        }
        assert(link_id(p) =~= Seq::<char>::empty());
    }
    Some(String::from_str(link.substring_char(k, n)))
}

/// Why a calendar could not be made.
#[derive(Clone, Copy, Debug, PartialEq, Eq, Structural)]
pub enum GuiError {
    InvalidLink,
    UnableToFetchCourseData,
    UnableToWriteData,
    InvalidTimeTableData,
}

impl GuiError {
    pub open spec fn message(self) -> Seq<char> {
        match self {
            GuiError::InvalidLink => "your link is invalid"@,
            GuiError::UnableToFetchCourseData => "unable to access internet"@,
            GuiError::UnableToWriteData => "unable to write data"@,
            GuiError::InvalidTimeTableData => "timetable is invalid"@,
        }
    }

    /// A message for the user.
    pub fn to_string(&self) -> (r: String)
        ensures
            r@ == self.message(),
    {
        match self {
            GuiError::InvalidLink => String::from_str("your link is invalid"),
            GuiError::UnableToFetchCourseData => String::from_str("unable to access internet"),
            GuiError::UnableToWriteData => String::from_str("unable to write data"),
            GuiError::InvalidTimeTableData => String::from_str("timetable is invalid"),
        }
    }
}

} // verus!
