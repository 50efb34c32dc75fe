use crate::text::{
    bounded_decimal, chars_of, decimal_value, digit_run_end, is_digit, is_digit_char, is_word,
    is_word_char, lemma_run_end_bounds, scan_digit_run, scan_word_run, word_run_end,
};
use vstd::prelude::*;

verus! {

/// A teaching day. Weekends have no periods.
#[derive(Clone, Copy, Debug, PartialEq, Eq, Structural)]
pub enum Day {
    Monday,
    Tuesday,
    Wednesday,
    Thursday,
    Friday,
}

/// The day that a day code names: `M`, `T`, `W`, `Th` or `F`.
pub open spec fn day_of_letters(s: Seq<char>) -> Option<Day> {
    if s == seq!['M'] {
        Some(Day::Monday)
    } else if s == seq!['T'] {
        Some(Day::Tuesday)
    } else if s == seq!['W'] {
        Some(Day::Wednesday)
    } else if s == seq!['T', 'h'] {
        Some(Day::Thursday)
    } else if s == seq!['F'] {
        Some(Day::Friday)
    } else {
        None
    }
}

impl Day {
    /// Monday as 0 through Friday as 4.
    pub open spec fn spec_index(self) -> int {
        match self {
            Day::Monday => 0,
            Day::Tuesday => 1,
            Day::Wednesday => 2,
            Day::Thursday => 3,
            Day::Friday => 4,
        }
    }

    /// Monday as 0 through Friday as 4, the numbering of `Instant::weekday`.
    pub fn index(&self) -> (r: u8)
        ensures
            r as int == self.spec_index(),
    {
        match self {
            Day::Monday => 0,
            Day::Tuesday => 1,
            Day::Wednesday => 2,
            Day::Thursday => 3,
            Day::Friday => 4,
        }
    }

    /// Reads a day code: `M`, `T`, `W`, `Th` or `F`; anything else names no day.
    pub fn from_letters(s: &str) -> (r: Option<Day>)
        ensures
            r == day_of_letters(s@),
    {
        let n = s.unicode_len();
        if n == 1 {
            let c = s.get_char(0);
            let r = if c == 'M' {
                Some(Day::Monday)
            } else if c == 'T' {
                Some(Day::Tuesday)
            } else if c == 'W' {
                Some(Day::Wednesday)
            } else if c == 'F' {
                Some(Day::Friday)
            } else {
                None
            };
            proof {
                assert(s@ == seq![c]);
            }
            r
        } else if n == 2 && s.get_char(0) == 'T' && s.get_char(1) == 'h' {
            proof {
                assert(s@ == seq!['T', 'h']);
            }
            Some(Day::Thursday)
        } else {
            proof {
                if n == 2 {
                    assert(s@ != seq!['T', 'h'] ==> s@[0] != 'T' || s@[1] != 'h');
                }
                assert(seq!['M'].len() == 1 && seq!['T', 'h'].len() == 2);
            }
            None
        }
    }

    /// The iCalendar code of the day: `MO`, `TU`, `WE`, `TH` or `FR`.
    pub open spec fn spec_ical_code(self) -> Seq<char> {
        match self {
            Day::Monday => "MO"@,
            Day::Tuesday => "TU"@,
            Day::Wednesday => "WE"@,
            Day::Thursday => "TH"@,
            Day::Friday => "FR"@,
        }
    }

    /// The iCalendar code of the day: `MO`, `TU`, `WE`, `TH` or `FR`.
    pub fn ical_code(&self) -> (r: &'static str)
        ensures
            r@ == self.spec_ical_code(),
    {
        match self {
            Day::Monday => "MO",
            Day::Tuesday => "TU",
            Day::Wednesday => "WE",
            Day::Thursday => "TH",
            Day::Friday => "FR",
        }
    }
}

/// Why a room-and-period token was not read.
#[derive(Clone, Copy, Debug, PartialEq, Eq, Structural)]
pub enum TimingError {
    /// No `<word> <room>:<room>:` frame anywhere in the token.
    BadStringFormat,
    /// A frame, but never followed by `<day>:<period>`.
    InvalidTimingFormat,
    /// The day code is none of `M`, `T`, `W`, `Th`, `F`.
    InvalidDay,
    /// The period number does not fit in a byte.
    InvalidTime,
}

/// One weekly class slot: a room, a day and a range of periods.
#[derive(Debug)]
pub struct Timing {
    pub day: Day,
    pub classroom: String,
    pub start: u8,
    pub end: u8,
}

/// A room code: a word character followed by three digits.
pub open spec fn room_at(s: Seq<char>, k: int) -> bool {
    &&& 0 <= k && k + 4 <= s.len()
    &&& is_word_char(s[k])
    &&& is_digit_char(s[k + 1])
    &&& is_digit_char(s[k + 2])
    &&& is_digit_char(s[k + 3])
}

/// `<word> <room>:<room>:` with the space at `j`.
pub open spec fn frame_at(s: Seq<char>, j: int) -> bool {
    &&& 1 <= j && j + 11 <= s.len()
    &&& is_word_char(s[j - 1])
    &&& s[j] == ' '
    &&& room_at(s, j + 1)
    &&& s[j + 5] == ':'
    &&& room_at(s, j + 6)
    &&& s[j + 10] == ':'
}

/// A frame at `j` followed by a day code of word characters, a colon and period digits.
pub open spec fn token_at(s: Seq<char>, j: int) -> bool {
    &&& frame_at(s, j)
    &&& word_run_end(s, j + 11) > j + 11
    &&& word_run_end(s, j + 11) < s.len()
    &&& s[word_run_end(s, j + 11)] == ':'
    &&& digit_run_end(s, word_run_end(s, j + 11) + 1) > word_run_end(s, j + 11) + 1
}

/// The first position from `j` on where a frame stands.
pub open spec fn first_frame_from(s: Seq<char>, j: int) -> Option<int>
    decreases s.len() - j,
{
    if j >= s.len() {
        None
    } else if frame_at(s, j) {
        Some(j)
    } else {
        first_frame_from(s, j + 1)
    }
}

/// The first position from `j` on where a whole token stands.
pub open spec fn first_token_from(s: Seq<char>, j: int) -> Option<int>
    decreases s.len() - j,
{
    if j >= s.len() {
        None
    } else if token_at(s, j) {
        Some(j)
    } else {
        first_token_from(s, j + 1)
    }
}

/// What a room-and-period token `<anything> <room>:<room2>:<day>:<period>` says, read at the first
/// place where it stands: day, second room and period.
pub open spec fn timing_fields(s: Seq<char>) -> Result<(Day, Seq<char>, u8), TimingError> {
    match first_token_from(s, 0) {
        None => if first_frame_from(s, 0) is Some {
            Err(TimingError::InvalidTimingFormat)
        } else {
            Err(TimingError::BadStringFormat)
        },
        Some(j) => {
            let e1 = word_run_end(s, j + 11);
            let e2 = digit_run_end(s, e1 + 1);
            match day_of_letters(s.subrange(j + 11, e1)) {
                None => Err(TimingError::InvalidDay),
                Some(d) => if decimal_value(s.subrange(e1 + 1, e2)) <= 255 {
                    Ok((d, s.subrange(j + 6, j + 10), decimal_value(s.subrange(e1 + 1, e2)) as u8))
                } else {
                    Err(TimingError::InvalidTime)
                },
            }
        },
    }
}

fn scan_room(cs: &Vec<char>, k: usize) -> (r: bool)
    requires
        k + 4 <= cs@.len(),
    ensures
        r == room_at(cs@, k as int),
{
    let _n = cs.len();
    is_word(cs[k]) && is_digit(cs[k + 1]) && is_digit(cs[k + 2]) && is_digit(cs[k + 3])
}

fn scan_frame(cs: &Vec<char>, j: usize) -> (r: bool)
    ensures
        r == frame_at(cs@, j as int),
{
    j >= 1 && j <= cs.len() && cs.len() - j >= 11 && is_word(cs[j - 1]) && cs[j] == ' '
        && scan_room(cs, j + 1) && cs[j + 5] == ':' && scan_room(cs, j + 6) && cs[j + 10] == ':'
}

fn scan_token(cs: &Vec<char>, j: usize) -> (r: bool)
    ensures
        r == token_at(cs@, j as int),
{
    let _n = cs.len();
    if !scan_frame(cs, j) {
        return false;
    }
    proof {
        lemma_run_end_bounds(cs@, j as int + 11);
    }
    let e1 = scan_word_run(cs, j + 11);
    if e1 == j + 11 || e1 >= cs.len() || cs[e1] != ':' {
        return false;
    }
    let e2 = scan_digit_run(cs, e1 + 1);
    e2 > e1 + 1
}

impl Clone for Timing {
    fn clone(&self) -> (r: Timing)
        ensures
            r == *self,
    {
        Timing { day: self.day, classroom: self.classroom.clone(), start: self.start, end: self.end }
    }
}

/// What a timing says, as plain values.
pub struct TimingFact {
    pub day: Day,
    pub room: Seq<char>,
    pub start: u8,
    pub end: u8,
}

impl View for Timing {
    type V = TimingFact;

    open spec fn view(&self) -> TimingFact {
        TimingFact { day: self.day, room: self.classroom@, start: self.start, end: self.end }
    }
}

/// The facts of a list of timings.
pub open spec fn facts(ts: Seq<Timing>) -> Seq<TimingFact> {
    ts.map_values(|t: Timing| t@)
}

/// Whether `t` sits right next to `range` on the same day: just before it or just after it.
pub open spec fn adjoins(range: TimingFact, t: TimingFact) -> bool {
    range.day == t.day && (range.start as int == t.end as int + 1 || range.end as int + 1
        == t.start as int)
}

/// `range` grown by one period towards `t`: backwards if `t` ends just before it, else forwards.
pub open spec fn extended(range: TimingFact, t: TimingFact) -> TimingFact {
    if range.start as int == t.end as int + 1 {
        TimingFact { start: (range.start - 1) as u8, ..range }
    } else {
        TimingFact { end: (range.end + 1) as u8, ..range }
    }
}

/// The first index from `i` on of a range in `acc` that `t` adjoins, or `acc.len()`.
pub open spec fn first_adjoining(acc: Seq<TimingFact>, t: TimingFact, i: int) -> int
    decreases acc.len() - i,
{
    if i < 0 || i >= acc.len() {
        acc.len() as int
    } else if adjoins(acc[i], t) {
        i
    } else {
        first_adjoining(acc, t, i + 1)
    }
}

/// One step of merging: `t` grows the first range it adjoins, or is appended as a range of its own.
pub open spec fn merge_step(acc: Seq<TimingFact>, t: TimingFact) -> Seq<TimingFact> {
    let k = first_adjoining(acc, t, 0);
    if k < acc.len() {
        acc.update(k, extended(acc[k], t))
    } else {
        acc.push(t)
    }
}

/// The timings merged one after the other, in order.
pub open spec fn merged(ts: Seq<TimingFact>) -> Seq<TimingFact>
    decreases ts.len(),
{
    if ts.len() == 0 {
        Seq::empty()
    } else {
        merge_step(merged(ts.drop_last()), ts.last())
    }
}

/// No timing of the list adjoins an earlier one.
pub open spec fn unmergeable(ts: Seq<TimingFact>) -> bool {
    forall|i: int, j: int| 0 <= i < j < ts.len() ==> !adjoins(#[trigger] ts[i], #[trigger] ts[j])
}

/// Every range starts no later than it ends.
pub open spec fn ranges_wf(ts: Seq<TimingFact>) -> bool {
    forall|k: int| 0 <= k < ts.len() ==> (#[trigger] ts[k]).start <= ts[k].end
}

/// Merging keeps every range starting no later than it ends.
pub proof fn lemma_merged_wf(ts: Seq<TimingFact>)
    requires
        ranges_wf(ts),
    ensures
        ranges_wf(merged(ts)),
    decreases ts.len(),
{
    if ts.len() > 0 {
        let p = ts.drop_last();
        assert(ranges_wf(p)) by {
            assert forall|k: int| 0 <= k < p.len() implies (#[trigger] p[k]).start <= p[k].end by {
                assert(p[k] == ts[k]);
            }
        }
        lemma_merged_wf(p);
        lemma_first_adjoining(merged(p), ts.last(), 0);
        assert(ts.last() == ts[ts.len() - 1]);
    }
}

/// The lectures, tutorials or labs of one section of a course.
#[derive(Debug)]
pub struct Section {
    pub number: i32,
    pub instructors: Vec<String>,
    pub timings: Vec<Timing>,
}

/// What a section says, as plain values.
pub struct SectionFact {
    pub number: i32,
    pub instructors: Seq<Seq<char>>,
    pub timings: Seq<TimingFact>,
}

/// The texts of a list of strings.
pub open spec fn texts(v: Seq<String>) -> Seq<Seq<char>> {
    v.map_values(|s: String| s@)
}

impl View for Section {
    type V = SectionFact;

    open spec fn view(&self) -> SectionFact {
        SectionFact {
            number: self.number,
            instructors: texts(self.instructors@),
            timings: facts(self.timings@),
        }
    }
}

/// The timing that a token holds, if it can be read.
pub open spec fn parsed_timing(token: Seq<char>) -> Option<TimingFact> {
    match timing_fields(token) {
        Ok((d, room, p)) => Some(TimingFact { day: d, room, start: p, end: p }),
        Err(_) => None,
    }
}

/// The timings of the tokens that can be read, in order; the others are skipped.
pub open spec fn parsed_timings(tokens: Seq<Seq<char>>) -> Seq<TimingFact>
    decreases tokens.len(),
{
    if tokens.len() == 0 {
        Seq::empty()
    } else {
        match parsed_timing(tokens.last()) {
            Some(t) => parsed_timings(tokens.drop_last()).push(t),
            None => parsed_timings(tokens.drop_last()),
        }
    }
}

/// Reads every token that holds a timing, in order, and skips the others.
pub fn parse_timings(tokens: &Vec<String>) -> (r: Vec<Timing>)
    ensures
        facts(r@) == parsed_timings(texts(tokens@)),
{
    let mut r: Vec<Timing> = Vec::new();
    let mut i: usize = 0;
    while i < tokens.len()
        invariant
            i <= tokens@.len(),
            facts(r@) == parsed_timings(texts(tokens@.subrange(0, i as int))),
        decreases tokens@.len() - i,
    {
        let res = Timing::from_string(tokens[i].as_str());
        proof {
            let p = tokens@.subrange(0, i as int + 1);
            assert(p.drop_last() == tokens@.subrange(0, i as int));
            assert(texts(p).drop_last() =~= texts(p.drop_last()));
            assert(texts(p).last() == tokens@[i as int]@);
        }
        let ghost before = r@;
        match res {
            Ok(t) => {
                r.push(t);
                proof {
                    assert(facts(r@) =~= facts(before).push(t@));
                }
            },
            Err(_) => {},
        }
        i = i + 1;
    }
    proof {
        assert(tokens@.subrange(0, tokens@.len() as int) == tokens@);
    }
    r
}

/// A copy of a list of strings.
pub fn copy_strings(v: &Vec<String>) -> (r: Vec<String>)
    ensures
        r@ == v@,
{
    let mut r: Vec<String> = Vec::new();
    let mut i: usize = 0;
    while i < v.len()
        invariant
            i <= v@.len(),
            r@ == v@.subrange(0, i as int),
        decreases v@.len() - i,
    {
        r.push(v[i].clone());
        i = i + 1;
    }
    proof {
        assert(r@ =~= v@);
    }
    r
}

impl Section {
    /// Merges each timing into the first range that it adjoins on the same day, growing that
    /// range by one period, or keeps it as a range of its own.
    pub fn optimize_timings(&mut self)
        ensures
            facts(final(self).timings@) == merged(facts(old(self).timings@)),
            ranges_wf(facts(old(self).timings@)) ==> ranges_wf(facts(final(self).timings@)),
            final(self).number == old(self).number,
            final(self).instructors == old(self).instructors,
    {
        let mut new_timings: Vec<Timing> = Vec::new();
        let mut i: usize = 0;
        while i < self.timings.len()
            invariant
                i <= self.timings@.len(),
                facts(new_timings@) == merged(facts(self.timings@.subrange(0, i as int))),
            decreases self.timings@.len() - i,
        {
            let t = &self.timings[i];
            let mut k: usize = 0;
            while k < new_timings.len() && !(new_timings[k].day == t.day && (new_timings[k].start
                as u16 == t.end as u16 + 1 || new_timings[k].end as u16 + 1 == t.start as u16))
                invariant
                    k <= new_timings@.len(),
                    first_adjoining(facts(new_timings@), t@, 0) == first_adjoining(facts(new_timings@), t@, k as int),
                decreases new_timings@.len() - k,
            {
                k = k + 1;
            }
            proof {
                let p = self.timings@.subrange(0, i as int + 1);
                assert(p.drop_last() == self.timings@.subrange(0, i as int));
                assert(facts(p).drop_last() =~= facts(p.drop_last()));
                assert(facts(p).last() == t@);
            }
            let ghost before = new_timings@;
            if k < new_timings.len() {
                if new_timings[k].start as u16 == t.end as u16 + 1 {
                    new_timings[k].start = new_timings[k].start - 1;
                } else {
                    new_timings[k].end = new_timings[k].end + 1;
                }
            } else {
                new_timings.push(t.clone());
            }
            proof {
                assert(facts(new_timings@) =~= merge_step(facts(before), t@));
            }
            i = i + 1;
        }
        proof {
            assert(self.timings@.subrange(0, self.timings@.len() as int) == self.timings@);
            if ranges_wf(facts(self.timings@)) {
                lemma_merged_wf(facts(self.timings@));
            }
        }
        self.timings = new_timings;
    }
}

proof fn lemma_first_adjoining(acc: Seq<TimingFact>, t: TimingFact, i: int)
    requires
        0 <= i <= acc.len(),
    ensures
        i <= first_adjoining(acc, t, i) <= acc.len(),
        first_adjoining(acc, t, i) < acc.len() ==> adjoins(acc[first_adjoining(acc, t, i)], t),
        first_adjoining(acc, t, i) == acc.len() <==> forall|k: int|
            i <= k < acc.len() ==> !adjoins(#[trigger] acc[k], t),
    decreases acc.len() - i,
{
    if i < acc.len() {
        lemma_first_adjoining(acc, t, i + 1);
    }
}

proof fn lemma_merged_len(ts: Seq<TimingFact>)
    ensures
        merged(ts).len() <= ts.len(),
        merged(ts).len() == ts.len() ==> merged(ts) == ts,
    decreases ts.len(),
{
    if ts.len() > 0 {
        let p = ts.drop_last();
        lemma_merged_len(p);
        lemma_first_adjoining(merged(p), ts.last(), 0);
        if merged(ts).len() == ts.len() {
            assert(merged(p) == p);
            assert(p.push(ts.last()) == ts);
        }
    }
}

/// A list in which no timing adjoins an earlier one comes out of merging unchanged.
proof fn lemma_merged_unmergeable(ts: Seq<TimingFact>)
    requires
        unmergeable(ts),
    ensures
        merged(ts) == ts,
    decreases ts.len(),
{
    if ts.len() > 0 {
        let p = ts.drop_last();
        assert(unmergeable(p)) by {
            assert forall|i: int, j: int| 0 <= i < j < p.len() implies !adjoins(
                #[trigger] p[i],
                #[trigger] p[j],
            ) by {
                assert(p[i] == ts[i] && p[j] == ts[j]);
            }
        }
        lemma_merged_unmergeable(p);
        lemma_first_adjoining(p, ts.last(), 0);
        assert forall|k: int| 0 <= k < p.len() implies !adjoins(#[trigger] p[k], ts.last()) by {
            assert(p[k] == ts[k]);
            assert(ts.last() == ts[ts.len() - 1]);
        }
        assert(p.push(ts.last()) == ts);
    }
}

/// A list in which some timing adjoins an earlier one gets shorter by merging.
proof fn lemma_merged_shrinks(ts: Seq<TimingFact>)
    requires
        !unmergeable(ts),
    ensures
        merged(ts).len() < ts.len(),
    decreases ts.len(),
{
    let (i, j) = choose|i: int, j: int| 0 <= i < j < ts.len() && adjoins(ts[i], ts[j]);
    let p = ts.drop_last();
    lemma_merged_len(p);
    lemma_first_adjoining(merged(p), ts.last(), 0);
    if j < ts.len() - 1 {
        assert(p[i] == ts[i] && p[j] == ts[j]);
        lemma_merged_shrinks(p);
    } else if merged(p).len() == p.len() {
        assert(merged(p) == p);
        assert(p[i] == ts[i]);
        assert(adjoins(merged(p)[i], ts.last()));
    }
}

/// Merging is idempotent exactly on the inputs whose merged list has no range adjoining an
/// earlier one: `merged(merged(ts)) == merged(ts)` if and only if `unmergeable(merged(ts))`.
pub proof fn lemma_merge_idempotent(ts: Seq<TimingFact>)
    ensures
        merged(merged(ts)) == merged(ts) <==> unmergeable(merged(ts)),
{
    if unmergeable(merged(ts)) {
        lemma_merged_unmergeable(merged(ts));
    } else {
        lemma_merged_shrinks(merged(ts));
    }
}

impl Timing {
    /// Reads a room-and-period token such as `101 A123:B210:M:3`: the second room becomes the
    /// classroom, the day code the day, and the period both start and end.
    pub fn from_string(info: &str) -> (r: Result<Timing, TimingError>)
        ensures
            match (r, timing_fields(info@)) {
                (Ok(t), Ok((d, room, p))) => t.day == d && t.classroom@ == room && t.start == p
                    && t.end == p,
                (Err(e), Err(f)) => e == f,
                _ => false,
            },
    {
        let cs = chars_of(info);
        let n = cs.len();
        let mut j: usize = 0;
        let mut framed = false;
        let mut found = false;
        while j < n && !found
            invariant
                n == cs@.len(),
                cs@ == info@,
                j <= n,
                first_token_from(cs@, 0) == first_token_from(cs@, j as int),
                found ==> j < n && token_at(cs@, j as int),
                framed ==> first_frame_from(cs@, 0) is Some,
                !framed ==> first_frame_from(cs@, 0) == first_frame_from(cs@, j as int),
            decreases n - j + (if found { 0int } else { 1int }),
        {
            if scan_token(&cs, j) {
                found = true;
            } else {
                if scan_frame(&cs, j) {
                    framed = true;
                }
                j = j + 1;
            }
        }
        if !found {
            if framed {
                return Err(TimingError::InvalidTimingFormat);
            } else {
                return Err(TimingError::BadStringFormat);
            }
        }
        proof {
            lemma_run_end_bounds(cs@, j as int + 11);
        }
        let e1 = scan_word_run(&cs, j + 11);
        let e2 = scan_digit_run(&cs, e1 + 1);
        proof {
            assert forall|i: int| e1 + 1 <= i < e2 implies is_digit_char(#[trigger] cs@[i]) by {
                lemma_digit_run(cs@, e1 as int + 1, i);
            }
        }
        let day = match Day::from_letters(info.substring_char(j + 11, e1)) {
            Some(d) => d,
            None => {
                return Err(TimingError::InvalidDay);
            },
        };
        let period = match bounded_decimal(&cs, e1 + 1, e2, 255) {
            Some(v) => v as u8,
            None => {
                return Err(TimingError::InvalidTime);
            },
        };
        let classroom = String::from_str(info.substring_char(j + 6, j + 10));
        Ok(Timing { day, classroom, start: period, end: period })
    }
}

/// Every character of a digit run is a digit.
proof fn lemma_digit_run(s: Seq<char>, k: int, i: int)
    requires
        0 <= k <= i < digit_run_end(s, k),
    ensures
        is_digit_char(s[i]),
    decreases i - k,
{
    if i > k {
        lemma_digit_run(s, k + 1, i);
    }
}

} // verus!
