use crate::exam::{exam_fields, ExamFact, ExamKind, ExamTime};
use crate::instant::{rfc3339_instant, Instant};
use crate::responses;
use crate::responses::{CourseResponse, HolidayResponse, HolidayString, SectionResponse, TimeTableChangeResponse, TimeTableResponse};
use crate::timing::{
    copy_strings, day_of_letters, merged, parse_timings, parsed_timings, texts, Day, Section,
    SectionFact,
};
use vstd::prelude::*;

verus! {

/// The three kinds of section a course can have.
#[derive(Clone, Copy, Debug, PartialEq, Eq, Structural)]
pub enum SectionKind {
    Lecture,
    Tutorial,
    Lab,
}

/// The kind that a section code names: `L`, `T` or `P`.
pub open spec fn section_kind_of(s: Seq<char>) -> Option<SectionKind> {
    if s == seq!['L'] {
        Some(SectionKind::Lecture)
    } else if s == seq!['T'] {
        Some(SectionKind::Tutorial)
    } else if s == seq!['P'] {
        Some(SectionKind::Lab)
    } else {
        None
    }
}

impl SectionKind {
    /// Reads a section code: `L` for a lecture, `T` for a tutorial, `P` for a lab.
    pub fn from_code(s: &str) -> (r: Option<SectionKind>)
        ensures
            r == section_kind_of(s@),
    {
        if s.unicode_len() != 1 {
            proof {
                assert(seq!['L'].len() == 1);
            }
            return None;
        }
        let c = s.get_char(0);
        proof {
            assert(s@ == seq![c]);
        }
        if c == 'L' {
            Some(SectionKind::Lecture)
        } else if c == 'T' {
            Some(SectionKind::Tutorial)
        } else if c == 'P' {
            Some(SectionKind::Lab)
        } else {
            None
        }
    }
}

/// A course with at most one section of each kind and its exam windows.
#[derive(Debug)]
pub struct Course {
    pub id: String,
    pub code: String,
    pub name: String,
    pub lecture: Option<Section>,
    pub tutorial: Option<Section>,
    pub lab: Option<Section>,
    pub midsem_date_time: Option<(Instant, Instant)>,
    pub compre_date_time: Option<(Instant, Instant)>,
}

/// What a course says, as plain values.
pub struct CourseFact {
    pub id: Seq<char>,
    pub code: Seq<char>,
    pub name: Seq<char>,
    pub lecture: Option<SectionFact>,
    pub tutorial: Option<SectionFact>,
    pub lab: Option<SectionFact>,
    pub midsem: Option<(Instant, Instant)>,
    pub compre: Option<(Instant, Instant)>,
}

pub open spec fn section_view(s: Option<Section>) -> Option<SectionFact> {
    match s {
        Some(x) => Some(x@),
        None => None,
    }
}

impl View for Course {
    type V = CourseFact;

    open spec fn view(&self) -> CourseFact {
        CourseFact {
            id: self.id@,
            code: self.code@,
            name: self.name@,
            lecture: section_view(self.lecture),
            tutorial: section_view(self.tutorial),
            lab: section_view(self.lab),
            midsem: self.midsem_date_time,
            compre: self.compre_date_time,
        }
    }
}

/// The first index from `i` on of a directory entry with id `id`, or `dir.len()`.
pub open spec fn directory_index(dir: Seq<responses::Course>, id: Seq<char>, i: int) -> int
    decreases dir.len() - i,
{
    if i < 0 || i >= dir.len() {
        dir.len() as int
    } else if dir[i].id@ == id {
        i
    } else {
        directory_index(dir, id, i + 1)
    }
}

/// A course with id `id` and the code and name of a directory entry, with no sections or exams.
pub open spec fn fresh_course(id: Seq<char>, entry: responses::Course) -> CourseFact {
    CourseFact {
        id,
        code: entry.code@,
        name: entry.name@,
        lecture: None,
        tutorial: None,
        lab: None,
        midsem: None,
        compre: None,
    }
}

/// The section that a raw section record makes: its timing tokens read and merged.
pub open spec fn section_fact(sr: SectionResponse) -> SectionFact {
    SectionFact {
        number: sr.number,
        instructors: texts(sr.instructors@),
        timings: merged(parsed_timings(texts(sr.room_time@))),
    }
}

/// `c` with the section of `sr` in the slot that its code names; unchanged for another code.
pub open spec fn with_section(c: CourseFact, sr: SectionResponse) -> CourseFact {
    match section_kind_of(sr.section_type@) {
        Some(SectionKind::Lecture) => CourseFact { lecture: Some(section_fact(sr)), ..c },
        Some(SectionKind::Tutorial) => CourseFact { tutorial: Some(section_fact(sr)), ..c },
        Some(SectionKind::Lab) => CourseFact { lab: Some(section_fact(sr)), ..c },
        None => c,
    }
}

/// The window of the last exam of `exams` with code `code` and kind `kind`, or `prior` if none.
pub open spec fn exam_window(
    exams: Seq<ExamFact>,
    code: Seq<char>,
    kind: ExamKind,
    prior: Option<(Instant, Instant)>,
) -> Option<(Instant, Instant)>
    decreases exams.len(),
{
    if exams.len() == 0 {
        prior
    } else if exams.last().code == code && exams.last().kind == kind {
        Some((exams.last().start, exams.last().end))
    } else {
        exam_window(exams.drop_last(), code, kind, prior)
    }
}

/// `c` with the windows of the last of `exams` of each kind that bear its code.
pub open spec fn with_exams(c: CourseFact, exams: Seq<ExamFact>) -> CourseFact {
    CourseFact {
        midsem: exam_window(exams, c.code, ExamKind::Midsem, c.midsem),
        compre: exam_window(exams, c.code, ExamKind::Compre, c.compre),
        ..c
    }
}

pub open spec fn window_wf(w: Option<(Instant, Instant)>) -> bool {
    w matches Some((a, b)) ==> a.wf() && b.wf()
}

pub open spec fn exams_wf(exams: Seq<ExamFact>) -> bool {
    forall|k: int| 0 <= k < exams.len() ==> (#[trigger] exams[k]).start.wf() && exams[k].end.wf()
}

proof fn lemma_exam_window_wf(
    exams: Seq<ExamFact>,
    code: Seq<char>,
    kind: ExamKind,
    prior: Option<(Instant, Instant)>,
)
    requires
        exams_wf(exams),
        window_wf(prior),
    ensures
        window_wf(exam_window(exams, code, kind, prior)),
    decreases exams.len(),
{
    if exams.len() > 0 {
        assert(exams.last() == exams[exams.len() - 1]);
        lemma_exam_window_wf(exams.drop_last(), code, kind, prior);
    }
}

fn take_section(sr: &SectionResponse) -> (r: Section)
    ensures
        r@ == section_fact(*sr),
{
    let mut s = Section {
        number: sr.number,
        instructors: copy_strings(&sr.instructors),
        timings: parse_timings(&sr.room_time),
    };
    s.optimize_timings();
    s
}

impl Course {
    /// The course with id `id` from the directory, with no sections or exams yet; `None` if the
    /// directory has no such id.
    pub fn new(id: String, course_response: &CourseResponse) -> (r: Option<Course>)
        ensures
            ({
                let dir = course_response.courses@;
                let k = directory_index(dir, id@, 0);
                match r {
                    None => k == dir.len(),
                    Some(c) => k < dir.len() && c@ == fresh_course(id@, dir[k]),
                }
            }),
    {
        let dir = &course_response.courses;
        let mut k: usize = 0;
        while k < dir.len() && dir[k].id != id
            invariant
                k <= dir@.len(),
                directory_index(dir@, id@, 0) == directory_index(dir@, id@, k as int),
            decreases dir@.len() - k,
        {
            k = k + 1;
        }
        if k == dir.len() {
            return None;
        }
        Some(
            Course {
                id,
                code: dir[k].code.clone(),
                name: dir[k].name.clone(),
                lecture: None,
                tutorial: None,
                lab: None,
                midsem_date_time: None,
                compre_date_time: None,
            },
        )
    }

    /// Reads the section's timing tokens (skipping those that cannot be read), merges them, and
    /// puts the section in the slot its code names, replacing what was there; a section with
    /// another code is left out.
    pub fn add_section(&mut self, section_response: &SectionResponse)
        ensures
            final(self)@ == with_section(old(self)@, *section_response),
    {
        let kind = SectionKind::from_code(section_response.section_type.as_str());
        let section = take_section(section_response);
        match kind {
            Some(SectionKind::Lab) => self.lab = Some(section),
            Some(SectionKind::Tutorial) => self.tutorial = Some(section),
            Some(SectionKind::Lecture) => self.lecture = Some(section),
            None => {},
        }
    }

    /// Takes, for each exam kind, the window of the last exam in `exam_times` that bears this
    /// course's code.
    pub fn update_exam_time(&mut self, exam_times: &[ExamTime])
        ensures
            final(self)@ == with_exams(old(self)@, exam_times@.map_values(|e: ExamTime| e@)),
    {
        let ghost all = exam_times@.map_values(|e: ExamTime| e@);
        let mut i: usize = 0;
        while i < exam_times.len()
            invariant
                i <= exam_times@.len(),
                all == exam_times@.map_values(|e: ExamTime| e@),
                self@ == with_exams(old(self)@, all.subrange(0, i as int)),
            decreases exam_times@.len() - i,
        {
            let e = &exam_times[i];
            proof {
                let p = all.subrange(0, i as int + 1);
                assert(p.drop_last() == all.subrange(0, i as int));
                assert(p.last() == e@);
            }
            if e.code == self.code {
                match e.exam_type {
                    ExamKind::Midsem => {
                        self.midsem_date_time = Some((e.start_date_time, e.end_date_time));
                    },
                    ExamKind::Compre => {
                        self.compre_date_time = Some((e.start_date_time, e.end_date_time));
                    },
                }
            }
            i = i + 1;
        }
        proof {
            assert(all.subrange(0, all.len() as int) == all);
        }
    }
}

/// A named day off.
#[derive(Debug)]
pub struct Holiday {
    pub name: String,
    pub date: Instant,
}

/// A date on which the timetable of another weekday is followed.
#[derive(Debug)]
pub struct TimeTableChange {
    pub day: Day,
    pub date: Instant,
}

/// A holiday as plain values.
pub struct HolidayFact {
    pub name: Seq<char>,
    pub date: Instant,
}

/// A timetable change as plain values.
pub struct ChangeFact {
    pub day: Day,
    pub date: Instant,
}

/// A semester's timetable: its courses, holidays and the dates that bound classwork.
#[derive(Debug)]
pub struct TimeTable {
    pub id: String,
    pub name: String,
    pub acad_year: i32,
    pub classwork_start: Instant,
    pub classwork_end: Instant,
    pub midsem_dates: Option<(Instant, Instant)>,
    pub courses: Vec<Course>,
    pub holidays: Vec<Holiday>,
    pub time_table_changes: Vec<TimeTableChange>,
}

/// What a timetable says, as plain values.
pub struct TimeTableFact {
    pub id: Seq<char>,
    pub name: Seq<char>,
    pub acad_year: i32,
    pub classwork_start: Instant,
    pub classwork_end: Instant,
    pub midsem_dates: Option<(Instant, Instant)>,
    pub courses: Seq<CourseFact>,
    pub holidays: Seq<HolidayFact>,
    pub changes: Seq<ChangeFact>,
}

pub open spec fn course_facts(v: Seq<Course>) -> Seq<CourseFact> {
    v.map_values(|c: Course| c@)
}

impl View for TimeTable {
    type V = TimeTableFact;

    open spec fn view(&self) -> TimeTableFact {
        TimeTableFact {
            id: self.id@,
            name: self.name@,
            acad_year: self.acad_year,
            classwork_start: self.classwork_start,
            classwork_end: self.classwork_end,
            midsem_dates: self.midsem_dates,
            courses: course_facts(self.courses@),
            holidays: self.holidays@.map_values(|h: Holiday| HolidayFact { name: h.name@, date: h.date }),
            changes: self.time_table_changes@.map_values(|c: TimeTableChange| ChangeFact { day: c.day, date: c.date }),
        }
    }
}

impl TimeTableFact {
    /// Every instant is well formed and classwork does not end before it starts.
    pub open spec fn wf(self) -> bool {
        &&& self.classwork_start.wf()
        &&& self.classwork_end.wf()
        &&& self.classwork_start.spec_le(self.classwork_end)
        &&& window_wf(self.midsem_dates)
        &&& forall|k: int| 0 <= k < self.holidays.len() ==> (#[trigger] self.holidays[k]).date.wf()
        &&& forall|k: int| 0 <= k < self.courses.len() ==> window_wf((#[trigger] self.courses[k]).midsem)
            && window_wf(self.courses[k].compre)
    }
}

/// The first index from `i` on of a course with id `id`, or `acc.len()`.
pub open spec fn course_index(acc: Seq<CourseFact>, id: Seq<char>, i: int) -> int
    decreases acc.len() - i,
{
    if i < 0 || i >= acc.len() {
        acc.len() as int
    } else if acc[i].id == id {
        i
    } else {
        course_index(acc, id, i + 1)
    }
}

/// The courses that the sections build, in order of first appearance: each section goes to the
/// course of its id, which the directory supplies on its first appearance; a section whose id the
/// directory lacks is dropped.
pub open spec fn courses_from(sections: Seq<SectionResponse>, dir: Seq<responses::Course>) -> Seq<CourseFact>
    decreases sections.len(),
{
    if sections.len() == 0 {
        Seq::empty()
    } else {
        let acc = courses_from(sections.drop_last(), dir);
        let sr = sections.last();
        let k = course_index(acc, sr.course_id@, 0);
        if k < acc.len() {
            acc.update(k, with_section(acc[k], sr))
        } else {
            let e = directory_index(dir, sr.course_id@, 0);
            if e < dir.len() {
                acc.push(with_section(fresh_course(sr.course_id@, dir[e]), sr))
            } else {
                acc
            }
        }
    }
}

/// The exam entries that can be read, in order.
pub open spec fn exams_from(entries: Seq<Seq<char>>) -> Seq<ExamFact>
    decreases entries.len(),
{
    if entries.len() == 0 {
        Seq::empty()
    } else {
        match exam_fields(entries.last()) {
            Ok((code, kind, start, end)) => exams_from(entries.drop_last()).push(
                ExamFact { code, kind, start, end },
            ),
            Err(_) => exams_from(entries.drop_last()),
        }
    }
}

/// The holidays whose dates can be read, in order.
pub open spec fn holidays_from(hs: Seq<HolidayString>) -> Seq<HolidayFact>
    decreases hs.len(),
{
    if hs.len() == 0 {
        Seq::empty()
    } else {
        match rfc3339_instant(hs.last().date@) {
            Some(d) => holidays_from(hs.drop_last()).push(HolidayFact { name: hs.last().name@, date: d }),
            None => holidays_from(hs.drop_last()),
        }
    }
}

/// The timetable changes whose date and day can both be read, in order.
pub open spec fn changes_from(cs: Seq<TimeTableChangeResponse>) -> Seq<ChangeFact>
    decreases cs.len(),
{
    if cs.len() == 0 {
        Seq::empty()
    } else {
        match (rfc3339_instant(cs.last().date@), day_of_letters(cs.last().day@)) {
            (Some(date), Some(day)) => changes_from(cs.drop_last()).push(ChangeFact { day, date }),
            _ => changes_from(cs.drop_last()),
        }
    }
}

/// The mid-semester window, where both of its ends can be read.
pub open spec fn midsem_from(hr: HolidayResponse) -> Option<(Instant, Instant)> {
    match (rfc3339_instant(hr.midsem_start@), rfc3339_instant(hr.midsem_end@)) {
        (Some(a), Some(b)) => Some((a, b)),
        _ => None,
    }
}

/// Whether the classwork dates can be read and do not run backwards.
pub open spec fn classwork_ok(hr: HolidayResponse) -> bool {
    match (rfc3339_instant(hr.classwork_start@), rfc3339_instant(hr.classwork_end@)) {
        (Some(a), Some(b)) => a.spec_le(b),
        _ => false,
    }
}

/// The timetable that the three raw records make, where the classwork dates are readable.
pub open spec fn timetable_fact(
    ttr: TimeTableResponse,
    cr: CourseResponse,
    hr: HolidayResponse,
) -> TimeTableFact {
    let exams = exams_from(texts(ttr.exam_times@));
    TimeTableFact {
        id: ttr.id@,
        name: ttr.name@,
        acad_year: ttr.acad_year,
        classwork_start: rfc3339_instant(hr.classwork_start@)->Some_0,
        classwork_end: rfc3339_instant(hr.classwork_end@)->Some_0,
        midsem_dates: midsem_from(hr),
        courses: courses_from(ttr.sections@, cr.courses@).map_values(|c: CourseFact| with_exams(c, exams)),
        holidays: holidays_from(hr.holidays@),
        changes: changes_from(hr.time_table_changes@),
    }
}

/// Builds the courses from the sections, in order of first appearance.
fn build_courses(sections: &Vec<SectionResponse>, course_response: &CourseResponse) -> (r: Vec<Course>)
    ensures
        course_facts(r@) == courses_from(sections@, course_response.courses@),
{
    let mut courses: Vec<Course> = Vec::new();
    let mut i: usize = 0;
    while i < sections.len()
        invariant
            i <= sections@.len(),
            course_facts(courses@) == courses_from(sections@.subrange(0, i as int), course_response.courses@),
        decreases sections@.len() - i,
    {
        let sr = &sections[i];
        proof {
            let p = sections@.subrange(0, i as int + 1);
            assert(p.drop_last() == sections@.subrange(0, i as int));
            assert(p.last() == *sr);
        }
        let ghost acc = course_facts(courses@);
        let mut k: usize = 0;
        while k < courses.len() && courses[k].id != sr.course_id
            invariant
                k <= courses@.len(),
                acc == course_facts(courses@),
                course_index(acc, sr.course_id@, 0) == course_index(acc, sr.course_id@, k as int),
            decreases courses@.len() - k,
        {
            k = k + 1;
        }
        if k < courses.len() {
            let mut c = courses.remove(k);
            c.add_section(sr);
            courses.insert(k, c);
            proof {
                assert(course_facts(courses@) =~= acc.update(k as int, with_section(acc[k as int], *sr)));
            }
        } else {
            match Course::new(sr.course_id.clone(), course_response) {
                Some(mut c) => {
                    c.add_section(sr);
                    courses.push(c);
                    proof {
                        assert(course_facts(courses@) =~= acc.push(c@));
                    }
                },
                None => {},
            }
        }
        i = i + 1;
    }
    proof {
        assert(sections@.subrange(0, sections@.len() as int) == sections@);
    }
    courses
}

/// Reads every exam entry that can be read, in order.
fn parse_exams(entries: &Vec<String>) -> (r: Vec<ExamTime>)
    ensures
        r@.map_values(|e: ExamTime| e@) == exams_from(texts(entries@)),
        exams_wf(r@.map_values(|e: ExamTime| e@)),
{
    let mut r: Vec<ExamTime> = Vec::new();
    let mut i: usize = 0;
    while i < entries.len()
        invariant
            i <= entries@.len(),
            r@.map_values(|e: ExamTime| e@) == exams_from(texts(entries@.subrange(0, i as int))),
            exams_wf(r@.map_values(|e: ExamTime| e@)),
        decreases entries@.len() - i,
    {
        let res = ExamTime::from_string(entries[i].as_str());
        proof {
            let p = entries@.subrange(0, i as int + 1);
            assert(p.drop_last() == entries@.subrange(0, i as int));
            assert(texts(p).drop_last() =~= texts(p.drop_last()));
            assert(texts(p).last() == entries@[i as int]@);
        }
        let ghost before = r@.map_values(|e: ExamTime| e@);
        match res {
            Ok(e) => {
                r.push(e);
                proof {
                    assert(r@.map_values(|e: ExamTime| e@) =~= before.push(e@));
                }
            },
            Err(_) => {},
        }
        i = i + 1;
    }
    proof {
        assert(entries@.subrange(0, entries@.len() as int) == entries@);
    }
    r
}

/// Reads every holiday whose date can be read, in order.
fn parse_holidays(hs: &Vec<HolidayString>) -> (r: Vec<Holiday>)
    ensures
        r@.map_values(|h: Holiday| HolidayFact { name: h.name@, date: h.date }) == holidays_from(hs@),
        forall|k: int| 0 <= k < r@.len() ==> (#[trigger] r@[k]).date.wf(),
{
    let mut r: Vec<Holiday> = Vec::new();
    let mut i: usize = 0;
    while i < hs.len()
        invariant
            i <= hs@.len(),
            r@.map_values(|h: Holiday| HolidayFact { name: h.name@, date: h.date }) == holidays_from(hs@.subrange(0, i as int)),
            forall|k: int| 0 <= k < r@.len() ==> (#[trigger] r@[k]).date.wf(),
        decreases hs@.len() - i,
    {
        proof {
            let p = hs@.subrange(0, i as int + 1);
            assert(p.drop_last() == hs@.subrange(0, i as int));
            assert(p.last() == hs@[i as int]);
        }
        let ghost before = r@.map_values(|h: Holiday| HolidayFact { name: h.name@, date: h.date });
        match Instant::parse(hs[i].date.as_str()) {
            Some(date) => {
                let h = Holiday { name: hs[i].name.clone(), date };
                r.push(h);
                proof {
                    assert(r@.map_values(|h: Holiday| HolidayFact { name: h.name@, date: h.date }) =~= before.push(HolidayFact { name: hs@[i as int].name@, date }));
                }
            },
            None => {},
        }
        i = i + 1;
    }
    proof {
        assert(hs@.subrange(0, hs@.len() as int) == hs@);
    }
    r
}

/// Reads every timetable change whose date and day can both be read, in order.
fn parse_changes(cs: &Vec<TimeTableChangeResponse>) -> (r: Vec<TimeTableChange>)
    ensures
        r@.map_values(|c: TimeTableChange| ChangeFact { day: c.day, date: c.date }) == changes_from(cs@),
{
    let mut r: Vec<TimeTableChange> = Vec::new();
    let mut i: usize = 0;
    while i < cs.len()
        invariant
            i <= cs@.len(),
            r@.map_values(|c: TimeTableChange| ChangeFact { day: c.day, date: c.date }) == changes_from(cs@.subrange(0, i as int)),
        decreases cs@.len() - i,
    {
        proof {
            let p = cs@.subrange(0, i as int + 1);
            assert(p.drop_last() == cs@.subrange(0, i as int));
            assert(p.last() == cs@[i as int]);
        }
        let ghost before = r@.map_values(|c: TimeTableChange| ChangeFact { day: c.day, date: c.date });
        let date = Instant::parse(cs[i].date.as_str());
        let day = Day::from_letters(cs[i].day.as_str());
        match (date, day) {
            (Some(date), Some(day)) => {
                r.push(TimeTableChange { day, date });
                proof {
                    assert(r@.map_values(|c: TimeTableChange| ChangeFact { day: c.day, date: c.date }) =~= before.push(ChangeFact { day, date }));
                }
            },
            _ => {},
        }
        i = i + 1;
    }
    proof {
        assert(cs@.subrange(0, cs@.len() as int) == cs@);
    }
    r
}

/// No course built from sections has an exam window yet.
proof fn lemma_courses_without_exams(sections: Seq<SectionResponse>, dir: Seq<responses::Course>)
    ensures
        forall|k: int| 0 <= k < courses_from(sections, dir).len() ==> (#[trigger] courses_from(sections, dir)[k]).midsem is None
            && courses_from(sections, dir)[k].compre is None,
    decreases sections.len(),
{
    if sections.len() > 0 {
        let acc = courses_from(sections.drop_last(), dir);
        let sr = sections.last();
        lemma_courses_without_exams(sections.drop_last(), dir);
        lemma_course_index(acc, sr.course_id@, 0);
        let k = course_index(acc, sr.course_id@, 0);
        let r = courses_from(sections, dir);
        assert forall|j: int| 0 <= j < r.len() implies (#[trigger] r[j]).midsem is None
            && r[j].compre is None by {
            if k < acc.len() {
                if j != k {
                    assert(r[j] == acc[j]);
                }
            } else if j < acc.len() {
                assert(r[j] == acc[j]);
            }
        }
    }
}

proof fn lemma_course_index(acc: Seq<CourseFact>, id: Seq<char>, i: int)
    requires
        0 <= i <= acc.len(),
    ensures
        i <= course_index(acc, id, i) <= acc.len(),
    decreases acc.len() - i,
{
    if i < acc.len() {
        lemma_course_index(acc, id, i + 1);
    }
}

impl TimeTable {
    /// Assembles the timetable from the raw timetable, the course directory and the semester
    /// calendar. Sections of unknown courses or kinds, and timing tokens, exam entries, holidays
    /// and timetable changes that cannot be read, are left out; the mid-semester window is left
    /// empty unless both its ends can be read. `None` exactly when a classwork date cannot be
    /// read or classwork would end before it starts.
    pub fn new(
        time_table_response: &TimeTableResponse,
        course_response: &CourseResponse,
        holiday_response: &HolidayResponse,
    ) -> (r: Option<TimeTable>)
        ensures
            r is Some <==> classwork_ok(*holiday_response),
            holiday_response.classwork_end@.len() == 0 ==> r is None,
            r matches Some(t) ==> t@ == timetable_fact(
                *time_table_response,
                *course_response,
                *holiday_response,
            ) && t@.wf(),
    {
        let mut courses = build_courses(&time_table_response.sections, course_response);
        let exam_times = parse_exams(&time_table_response.exam_times);
        let ghost built = course_facts(courses@);
        let ghost exams = exam_times@.map_values(|e: ExamTime| e@);
        proof {
            lemma_courses_without_exams(time_table_response.sections@, course_response.courses@);
        }
        let mut i: usize = 0;
        while i < courses.len()
            invariant
                i <= courses@.len(),
                courses@.len() == built.len(),
                exams == exam_times@.map_values(|e: ExamTime| e@),
                exams_wf(exams),
                built == courses_from(time_table_response.sections@, course_response.courses@),
                forall|k: int| 0 <= k < i ==> (#[trigger] courses@[k])@ == with_exams(built[k], exams),
                forall|k: int| i <= k < built.len() ==> (#[trigger] courses@[k])@ == built[k],
                forall|k: int| 0 <= k < built.len() ==> (#[trigger] built[k]).midsem is None
                    && built[k].compre is None,
                forall|k: int| 0 <= k < i ==> window_wf((#[trigger] built[k]).midsem)
                    && window_wf(with_exams(built[k], exams).midsem)
                    && window_wf(with_exams(built[k], exams).compre),
            decreases built.len() - i,
        {
            let mut c = courses.remove(i);
            c.update_exam_time(exam_times.as_slice());
            proof {
                lemma_exam_window_wf(exams, built[i as int].code, ExamKind::Midsem, None);
                lemma_exam_window_wf(exams, built[i as int].code, ExamKind::Compre, None);
            }
            courses.insert(i, c);
            i = i + 1;
        }
        proof {
            assert(course_facts(courses@) =~= built.map_values(|c: CourseFact| with_exams(c, exams)));
            assert forall|k: int| 0 <= k < courses@.len() implies window_wf((#[trigger] course_facts(courses@)[k]).midsem)
                && window_wf(course_facts(courses@)[k].compre) by {
                assert(course_facts(courses@)[k] == with_exams(built[k], exams));
            }
        }
        let holidays = parse_holidays(&holiday_response.holidays);
        let time_table_changes = parse_changes(&holiday_response.time_table_changes);
        let midsem_dates = match (
            Instant::parse(holiday_response.midsem_start.as_str()),
            Instant::parse(holiday_response.midsem_end.as_str()),
        ) {
            (Some(a), Some(b)) => Some((a, b)),
            _ => None,
        };
        let classwork_start = match Instant::parse(holiday_response.classwork_start.as_str()) {
            Some(a) => a,
            None => {
                return None;
            },
        };
        let classwork_end = match Instant::parse(holiday_response.classwork_end.as_str()) {
            Some(b) => b,
            None => {
                return None;
            },
        };
        if !classwork_start.le(&classwork_end) {
            return None;
        }
        let t = TimeTable {
            id: time_table_response.id.clone(),
            name: time_table_response.name.clone(),
            acad_year: time_table_response.acad_year,
            classwork_start,
            classwork_end,
            midsem_dates,
            courses,
            holidays,
            time_table_changes,
        };
        proof {
            assert(t@.holidays == holidays_from(holiday_response.holidays@));
            assert(forall|k: int| 0 <= k < t@.holidays.len() ==> (#[trigger] t@.holidays[k]).date == holidays@[k].date);
        }
        Some(t)
    }
}

} // verus!
