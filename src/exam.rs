use crate::instant::{rfc3339_instant, Instant};
use crate::text::chars_of;
use vstd::prelude::*;

verus! {

#[derive(Clone, Copy, Debug, PartialEq, Eq, Structural)]
pub enum ExamKind {
    Midsem,
    Compre,
}

/// Why an exam entry was not read.
#[derive(Clone, Copy, Debug, PartialEq, Eq, Structural)]
pub enum ExamTimeError {
    /// Not `<code>|<kind>|<start>|<end>` with a code.
    BadFormat,
    /// The kind is neither `MIDSEM` nor `COMPRE`.
    InvalidKind,
    /// The start is no date-time.
    InvalidStart,
    /// The end is no date-time.
    InvalidEnd,
}

/// One exam of one course.
#[derive(Debug)]
pub struct ExamTime {
    pub code: String,
    pub exam_type: ExamKind,
    pub start_date_time: Instant,
    pub end_date_time: Instant,
}

/// What an exam entry says, as plain values.
pub struct ExamFact {
    pub code: Seq<char>,
    pub kind: ExamKind,
    pub start: Instant,
    pub end: Instant,
}

impl View for ExamTime {
    type V = ExamFact;

    open spec fn view(&self) -> ExamFact {
        ExamFact {
            code: self.code@,
            kind: self.exam_type,
            start: self.start_date_time,
            end: self.end_date_time,
        }
    }
}

/// The first position from `k` on of a `|` in `s`, or `s.len()`.
pub open spec fn next_bar(s: Seq<char>, k: int) -> int
    decreases s.len() - k,
{
    if k < 0 || k >= s.len() {
        s.len() as int
    } else if s[k] == '|' {
        k
    } else {
        next_bar(s, k + 1)
    }
}

pub open spec fn exam_kind_of(s: Seq<char>) -> Option<ExamKind> {
    if s == seq!['M', 'I', 'D', 'S', 'E', 'M'] {
        Some(ExamKind::Midsem)
    } else if s == seq!['C', 'O', 'M', 'P', 'R', 'E'] {
        Some(ExamKind::Compre)
    } else {
        None
    }
}

/// What an exam entry `<code>|<kind>|<start>|<end>` says: code, kind, start and end. The end is
/// all that follows the third bar.
pub open spec fn exam_fields(s: Seq<char>) -> Result<(Seq<char>, ExamKind, Instant, Instant), ExamTimeError> {
    let a = next_bar(s, 0);
    let b = next_bar(s, a + 1);
    let c = next_bar(s, b + 1);
    if a == 0 || c >= s.len() {
        Err(ExamTimeError::BadFormat)
    } else {
        match exam_kind_of(s.subrange(a + 1, b)) {
            None => Err(ExamTimeError::InvalidKind),
            Some(kind) => match rfc3339_instant(s.subrange(b + 1, c)) {
                None => Err(ExamTimeError::InvalidStart),
                Some(start) => match rfc3339_instant(s.subrange(c + 1, s.len() as int)) {
                    None => Err(ExamTimeError::InvalidEnd),
                    Some(end) => Ok((s.subrange(0, a), kind, start, end)),
                },
            },
        }
    }
}

fn scan_bar(cs: &Vec<char>, k: usize) -> (r: usize)
    requires
        k <= cs@.len(),
    ensures
        r == next_bar(cs@, k as int),
        k <= r <= cs@.len(),
{
    let mut i = k;
    while i < cs.len() && cs[i] != '|'
        invariant
            k <= i <= cs@.len(),
            next_bar(cs@, k as int) == next_bar(cs@, i as int),
        decreases cs@.len() - i,
    {
        i = i + 1;
    }
    i
}

/// Whether `cs[from..to]` spells `word`.
fn spells(cs: &Vec<char>, from: usize, to: usize, word: &Vec<char>) -> (r: bool)
    requires
        from <= to <= cs@.len(),
    ensures
        r == (cs@.subrange(from as int, to as int) == word@),
{
    if to - from != word.len() {
        return false;
    }
    let mut i: usize = 0;
    while i < word.len()
        invariant
            to - from == word@.len(),
            from <= to <= cs@.len(),
            i <= word@.len(),
            forall|k: int| 0 <= k < i ==> cs@[from + k] == word@[k],
        decreases word@.len() - i,
    {
        if cs[from + i] != word[i] {
            proof {
                assert(cs@.subrange(from as int, to as int)[i as int] != word@[i as int]);
            }
            return false;
        }
        i = i + 1;
    }
    proof {
        assert(cs@.subrange(from as int, to as int) =~= word@);
    }
    true
}

impl ExamTime {
    /// Reads an exam entry such as `CS101|MIDSEM|2023-05-10T08:30:00Z|2023-05-10T10:30:00Z`.
    pub fn from_string(info: &str) -> (r: Result<ExamTime, ExamTimeError>)
        ensures
            match (r, exam_fields(info@)) {
                (Ok(e), Ok((code, kind, start, end))) => e.code@ == code && e.exam_type == kind
                    && e.start_date_time == start && e.end_date_time == end,
                (Err(e), Err(f)) => e == f,
                _ => false,
            },
            r matches Ok(e) ==> e.start_date_time.wf() && e.end_date_time.wf(),
    {
        let cs = chars_of(info);
        let n = cs.len();
        let a = scan_bar(&cs, 0);
        if a == 0 || a >= n {
            return Err(ExamTimeError::BadFormat);
        }
        let b = scan_bar(&cs, a + 1);
        if b >= n {
            return Err(ExamTimeError::BadFormat);
        }
        let c = scan_bar(&cs, b + 1);
        if c >= n {
            return Err(ExamTimeError::BadFormat);
        }
        let exam_type = if spells(&cs, a + 1, b, &vec!['M', 'I', 'D', 'S', 'E', 'M']) {
            ExamKind::Midsem
        } else if spells(&cs, a + 1, b, &vec!['C', 'O', 'M', 'P', 'R', 'E']) {
            ExamKind::Compre
        } else {
            return Err(ExamTimeError::InvalidKind);
        };
        let start_date_time = match Instant::parse(info.substring_char(b + 1, c)) {
            Some(i) => i,
            None => {
                return Err(ExamTimeError::InvalidStart);
            },
        };
        let end_date_time = match Instant::parse(info.substring_char(c + 1, n)) {
            Some(i) => i,
            None => {
                return Err(ExamTimeError::InvalidEnd);
            },
        };
        let code = String::from_str(info.substring_char(0, a));
        Ok(ExamTime { code, exam_type, start_date_time, end_date_time })
    }
}

} // verus!
