//! Recovery from an append-only log file of records, one per line (the
//! write-ahead log of events, and the audit log).
//!
//! Blank lines are skipped; the first line that does not hold a record is
//! taken for a write torn by a crash, and it and everything after it are
//! ignored. Reading the file and parsing each line are the caller's part.
use vstd::prelude::*;

use crate::text::{trim, trimmed};

verus! {

/// One line of a log file, as the caller read it.
pub enum WalLine<T> {
    Blank,
    Record(T),
    Corrupt,
}

/// The records that a log with these lines restores.
pub open spec fn replayed<T>(lines: Seq<WalLine<T>>) -> Seq<T>
    decreases lines.len(),
{
    if lines.len() == 0 {
        Seq::empty()
    } else {
        match lines[0] {
            WalLine::Blank => replayed(lines.drop_first()),
            WalLine::Record(e) => seq![e] + replayed(lines.drop_first()),
            WalLine::Corrupt => Seq::empty(),
        }
    }
}

/// A line holds nothing but white space.
pub fn is_blank_line(line: &str) -> (r: bool)
    ensures
        r == (trimmed(line@).len() == 0),
{
    trim(line).is_empty()
}

/// The records to replay: those of the lines before the first corrupt one.
pub fn replay_lines<T>(lines: Vec<WalLine<T>>) -> (r: Vec<T>)
    ensures
        r@ == replayed(lines@),
{
    let ghost all = lines@;
    let mut source = lines;
    let mut rest: Vec<WalLine<T>> = Vec::new();
    while source.len() > 0
        invariant
            source@.len() + rest@.len() == all.len(),
            forall|j: int| 0 <= j < source@.len() ==> #[trigger] source@[j] == all[j],
            forall|j: int| 0 <= j < rest@.len() ==> #[trigger] rest@[j] == all[all.len() - 1 - j],
        decreases source@.len(),
    {
        let l = source.pop().unwrap();
        rest.push(l);
    }
    let mut r: Vec<T> = Vec::new();
    let ghost n = all.len();
    let mut done = false;
    assert(all.skip(0) =~= all);
    while rest.len() > 0 && !done
        invariant
            n == all.len(),
            rest@.len() <= n,
            !done ==> replayed(all) == r@ + replayed(all.skip(n - rest@.len())),
            done ==> replayed(all) == r@,
            forall|j: int| 0 <= j < rest@.len() ==> #[trigger] rest@[j] == all[n - 1 - j],
        decreases rest@.len(),
    {
        let ghost k: int = n - rest@.len();
        let line = rest.pop().unwrap();
        proof {
            assert(line == all[k]);
            let tail = all.skip(k);
            assert(tail[0] == all[k]);
            assert(tail.drop_first() =~= all.skip(k + 1));
        }
        match line {
            WalLine::Blank => {},
            WalLine::Record(e) => {
                let ghost before = r@;
                r.push(e);
                proof {
                    assert(r@ =~= before + seq![e]);
                }
            },
            WalLine::Corrupt => {
                done = true;
            },
        }
    }
    proof {
        if !done {
            assert(all.skip(n as int) =~= Seq::<WalLine<T>>::empty());
        }
    }
    r
}

/// No line of the log is corrupt.
pub open spec fn intact<T>(lines: Seq<WalLine<T>>) -> bool {
    forall|i: int| 0 <= i < lines.len() ==> !(#[trigger] lines[i] is Corrupt)
}

/// An empty log restores nothing.
pub proof fn law_replay_of_empty_log<T>()
    ensures
        replayed(Seq::<WalLine<T>>::empty()) == Seq::<T>::empty(),
{
}

/// A record line appended to an intact log adds its record at the end of
/// what is restored: the last line of a file is replayed like any other.
pub proof fn law_replay_appended_record<T>(lines: Seq<WalLine<T>>, e: T)
    requires
        intact(lines),
    ensures
        replayed(lines.push(WalLine::Record(e))) == replayed(lines).push(e),
    decreases lines.len(),
{
    let l = lines.push(WalLine::Record(e));
    if lines.len() == 0 {
        assert(l.drop_first() =~= Seq::<WalLine<T>>::empty());
        assert(replayed(Seq::<WalLine<T>>::empty()) == Seq::<T>::empty());
        assert(replayed(l) == seq![e] + replayed(l.drop_first()));
        assert(seq![e] + Seq::<T>::empty() =~= Seq::<T>::empty().push(e));
    } else {
        let d = lines.drop_first();
        assert(l[0] == lines[0]);
        assert(l.drop_first() =~= d.push(WalLine::Record(e)));
        assert(!(lines[0] is Corrupt));
        law_replay_appended_record(d, e);
        match lines[0] {
            WalLine::Record(x) => {
                assert(replayed(l) == seq![x] + replayed(l.drop_first()));
                assert(seq![x] + replayed(d).push(e) =~= (seq![x] + replayed(d)).push(e));
            },
            _ => {
                assert(replayed(l) == replayed(l.drop_first()));
            },
        }
    }
}

/// A blank line appended to an intact log restores nothing more.
pub proof fn law_replay_appended_blank<T>(lines: Seq<WalLine<T>>)
    requires
        intact(lines),
    ensures
        replayed(lines.push(WalLine::Blank)) == replayed(lines),
    decreases lines.len(),
{
    let l = lines.push(WalLine::Blank);
    if lines.len() == 0 {
        assert(l.drop_first() =~= Seq::<WalLine<T>>::empty());
        assert(replayed(Seq::<WalLine<T>>::empty()) == Seq::<T>::empty());
        assert(replayed(l) == replayed(l.drop_first()));
    } else {
        let d = lines.drop_first();
        assert(l[0] == lines[0]);
        assert(l.drop_first() =~= d.push(WalLine::Blank));
        assert(!(lines[0] is Corrupt));
        law_replay_appended_blank(d);
        match lines[0] {
            WalLine::Record(x) => {
                assert(replayed(l) == seq![x] + replayed(l.drop_first()));
            },
            _ => {
                assert(replayed(l) == replayed(l.drop_first()));
            },
        }
    }
}

/// Nothing from the first corrupt line on is restored: an intact log
/// followed by a corrupt line and anything else restores what the intact
/// part restores.
pub proof fn law_replay_stops_at_first_corrupt_line<T>(lines: Seq<WalLine<T>>, rest: Seq<WalLine<T>>)
    requires
        intact(lines),
    ensures
        replayed(lines + seq![WalLine::Corrupt] + rest) == replayed(lines),
    decreases lines.len(),
{
    let l = lines + seq![WalLine::Corrupt] + rest;
    if lines.len() == 0 {
        assert(l[0] == WalLine::<T>::Corrupt);
    } else {
        let d = lines.drop_first();
        assert(l[0] == lines[0]);
        assert(l.drop_first() =~= d + seq![WalLine::Corrupt] + rest);
        assert(!(lines[0] is Corrupt));
        law_replay_stops_at_first_corrupt_line(d, rest);
    }
}

/// A log whose lines are all records restores exactly those records, in
/// order.
pub proof fn law_replay_of_records<T>(lines: Seq<WalLine<T>>)
    requires
        forall|i: int| 0 <= i < lines.len() ==> #[trigger] lines[i] is Record,
    ensures
        replayed(lines).len() == lines.len(),
        forall|i: int| 0 <= i < lines.len() ==> replayed(lines)[i] == (#[trigger] lines[i])->Record_0,
    decreases lines.len(),
{
    if lines.len() > 0 {
        let d = lines.drop_first();
        assert forall|i: int| 0 <= i < d.len() implies #[trigger] d[i] is Record by {
            assert(d[i] == lines[i + 1]);
        }
        law_replay_of_records(d);
        assert(lines[0] is Record);
        let x = lines[0]->Record_0;
        assert(replayed(lines) == seq![x] + replayed(d));
        assert forall|i: int| 0 <= i < lines.len() implies replayed(lines)[i] == (#[trigger] lines[i])->Record_0 by {
            if i > 0 {
                assert(d[i - 1] == lines[i]);
            }
        }
    }
}

} // verus!
