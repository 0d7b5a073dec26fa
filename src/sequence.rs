//! The sequence of lines that the reader produces when its actions are
//! carried out against a fixed set of source contents, and what holds of it.
use vstd::prelude::*;
use crate::line::strip_terminator;
use crate::reader::ActionModel;
use crate::reader::EventModel;
use crate::reader::ReaderModel;
use crate::resolve::file_args_of;
use crate::resolve::sources_of;
use crate::resolve::SourceModel;

verus! {

/// What the sources hold: for each position of the source list, the raw
/// lines (terminators included) that reading it gives, or `None` where
/// opening it fails.
pub type Contents = Seq<Option<Seq<Seq<char>>>>;

/// One element of the sequence seen by the consumer.
pub enum Outcome {
    Line(Seq<char>),
    Error,
    End,
}

/// The raw lines of source `i`; none where it cannot be opened.
pub open spec fn raw_lines(w: Contents, i: nat) -> Seq<Seq<char>> {
    if i < w.len() && w[i as int] is Some {
        w[i as int]->0
    } else {
        Seq::empty()
    }
}

/// Lines with their terminators removed.
pub open spec fn stripped(lines: Seq<Seq<char>>) -> Seq<Seq<char>> {
    lines.map_values(|l: Seq<char>| strip_terminator(l))
}

/// The stripped lines of sources `i` up to `k`, in order.
pub open spec fn lines_between(w: Contents, i: nat, k: nat) -> Seq<Seq<char>>
    decreases k - i,
{
    if i >= k {
        Seq::empty()
    } else {
        stripped(raw_lines(w, i)) + lines_between(w, i + 1, k)
    }
}

/// A measure that every step of a pull decreases.
pub open spec fn pull_rank(r: ReaderModel) -> nat {
    if r.index < r.sources.len() {
        (2 * (r.sources.len() - r.index) + if r.open { 0int } else { 1int }) as nat
    } else {
        0
    }
}

/// Within one state, a pull comes before an opening, which comes before a
/// read.
pub open spec fn event_rank(e: EventModel) -> nat {
    match e {
        EventModel::Pull => 2,
        EventModel::Opened => 1,
        _ => 0,
    }
}

/// Hands event `e` to the reader in state `r`, with `pos` lines of the open
/// source read so far, and carries out what it asks against `w` until it
/// hands something to the consumer. Gives that element, the state and read
/// position afterwards, and the positions of the sources opened meanwhile.
pub open spec fn drive(r: ReaderModel, w: Contents, pos: nat, e: EventModel) -> (
    Outcome,
    ReaderModel,
    nat,
    Set<nat>,
)
    decreases pull_rank(r), event_rank(e),
{
    let (r2, a) = r.step(e);
    match a {
        ActionModel::Emit(line) => (Outcome::Line(line), r2, pos, Set::empty()),
        ActionModel::Fail => (Outcome::Error, r2, pos, Set::empty()),
        ActionModel::Finish => (Outcome::End, r2, pos, Set::empty()),
        ActionModel::Open(i) => {
            let (o, r3, p3, opened) = if i < w.len() && w[i as int] is Some {
                drive(r2, w, 0, EventModel::Opened)
            } else {
                drive(r2, w, pos, EventModel::OpenFailed)
            };
            (o, r3, p3, opened.insert(i))
        },
        ActionModel::ReadLine => {
            let lines = raw_lines(w, r2.index);
            if pos < lines.len() {
                drive(r2, w, pos + 1, EventModel::LineRead(lines[pos as int]))
            } else {
                drive(r2, w, pos, EventModel::EndOfStream)
            }
        },
    }
}

/// One pull.
pub open spec fn pull(r: ReaderModel, w: Contents, pos: nat) -> (Outcome, ReaderModel, nat, Set<nat>) {
    drive(r, w, pos, EventModel::Pull)
}

/// `n` pulls in a row: the elements, the state and read position after
/// them, and the positions of every source opened.
pub open spec fn run(r: ReaderModel, w: Contents, pos: nat, n: nat) -> (
    Seq<Outcome>,
    ReaderModel,
    nat,
    Set<nat>,
)
    decreases n,
{
    if n == 0 {
        (Seq::empty(), r, pos, Set::empty())
    } else {
        let (o, r1, p1, s1) = pull(r, w, pos);
        let (os, r2, p2, s2) = run(r1, w, p1, (n - 1) as nat);
        (seq![o] + os, r2, p2, s1 + s2)
    }
}

/// The lines still to come from sources before position `k`, in state `r`
/// with `pos` lines of the open source read.
spec fn pending(r: ReaderModel, w: Contents, pos: nat, k: nat) -> Seq<Seq<char>> {
    if r.open {
        stripped(raw_lines(w, r.index)).skip(pos as int) + lines_between(w, r.index + 1, k)
    } else {
        lines_between(w, r.index, k)
    }
}

/// Every source from position `i` up to `k` can be opened.
pub open spec fn readable_between(w: Contents, i: nat, k: nat) -> bool {
    forall|j: nat| i <= j < k ==> j < w.len() && #[trigger] w[j as int] is Some
}

spec fn ready(r: ReaderModel, w: Contents, pos: nat, k: nat) -> bool {
    &&& r.wf()
    &&& r.sources.len() == w.len()
    &&& r.index <= k <= w.len()
    &&& r.open ==> r.index < k && pos <= raw_lines(w, r.index).len()
    &&& readable_between(w, r.index, k)
}

proof fn lemma_drive_facts(r: ReaderModel, w: Contents, pos: nat, e: EventModel)
    requires
        r.wf(),
    ensures
        ({
            let (o, r2, p2, opened) = drive(r, w, pos, e);
            &&& r2.wf()
            &&& r2.sources == r.sources
            &&& r.index <= r2.index
            &&& forall|x: nat| #[trigger] opened.contains(x) ==> r.index <= x <= r2.index && x < r.sources.len()
            &&& o is End ==> r2.exhausted()
        }),
    decreases pull_rank(r), event_rank(e),
{
    let (r2, a) = r.step(e);
    match a {
        ActionModel::Open(i) => {
            if i < w.len() && w[i as int] is Some {
                lemma_drive_facts(r2, w, 0, EventModel::Opened);
            } else {
                lemma_drive_facts(r2, w, pos, EventModel::OpenFailed);
            }
        },
        ActionModel::ReadLine => {
            let lines = raw_lines(w, r2.index);
            if pos < lines.len() {
                lemma_drive_facts(r2, w, pos + 1, EventModel::LineRead(lines[pos as int]));
            } else {
                lemma_drive_facts(r2, w, pos, EventModel::EndOfStream);
            }
        },
        _ => {},
    }
}

proof fn lemma_end_of_stream_is_pull(r: ReaderModel, w: Contents, pos: nat)
    requires
        r.wf(),
        r.open,
    ensures
        drive(r, w, pos, EventModel::EndOfStream) == pull(r.advance(), w, pos),
{
    let adv = r.advance();
    assert(r.step(EventModel::EndOfStream) == adv.step(EventModel::Pull));
}

proof fn lemma_pull_closed(r: ReaderModel, w: Contents, pos: nat, k: nat)
    requires
        ready(r, w, pos, k),
        !r.open,
    ensures
        ({
            let rem = pending(r, w, pos, k);
            let (o, r2, p2, opened) = pull(r, w, pos);
            &&& rem.len() > 0 ==> {
                &&& o == Outcome::Line(rem[0])
                &&& ready(r2, w, p2, k)
                &&& pending(r2, w, p2, k) == rem.drop_first()
                &&& forall|x: nat| #[trigger] opened.contains(x) ==> x < k
            }
            &&& rem.len() == 0 && k == w.len() ==> o is End
        }),
    decreases k - r.index,
{
    let rem = pending(r, w, pos, k);
    if r.index < k {
        let i = r.index;
        let lines = raw_lines(w, i);
        assert(w[i as int] is Some);
        let r3 = ReaderModel { open: true, ..r };
        assert(r.step(EventModel::Pull) == (r, ActionModel::Open(i)));
        assert(pull(r, w, pos) == ({
            let (o, r4, p4, op) = drive(r, w, 0, EventModel::Opened);
            (o, r4, p4, op.insert(i))
        }));
        assert(r.step(EventModel::Opened) == (r3, ActionModel::ReadLine));
        assert(rem == stripped(lines) + lines_between(w, i + 1, k));
        if 0 < lines.len() {
            assert(drive(r, w, 0, EventModel::Opened) == drive(r3, w, 1, EventModel::LineRead(lines[0])));
            assert(drive(r3, w, 1, EventModel::LineRead(lines[0])) == (
                Outcome::Line(strip_terminator(lines[0])),
                r3,
                1nat,
                Set::<nat>::empty(),
            ));
            assert(rem[0] == strip_terminator(lines[0]));
            assert(ready(r3, w, 1, k));
            assert(stripped(lines).skip(1) + lines_between(w, i + 1, k) =~= rem.drop_first());
        } else {
            assert(stripped(lines) =~= Seq::<Seq<char>>::empty());
            assert(rem =~= lines_between(w, i + 1, k));
            lemma_end_of_stream_is_pull(r3, w, 0);
            lemma_pull_closed(r3.advance(), w, 0, k);
        }
    } else {
        if k == w.len() {
            assert(r.step(EventModel::Pull) == (r, ActionModel::Finish));
        }
    }
}

proof fn lemma_pull(r: ReaderModel, w: Contents, pos: nat, k: nat)
    requires
        ready(r, w, pos, k),
    ensures
        ({
            let rem = pending(r, w, pos, k);
            let (o, r2, p2, opened) = pull(r, w, pos);
            &&& rem.len() > 0 ==> {
                &&& o == Outcome::Line(rem[0])
                &&& ready(r2, w, p2, k)
                &&& pending(r2, w, p2, k) == rem.drop_first()
                &&& forall|x: nat| #[trigger] opened.contains(x) ==> x < k
            }
            &&& rem.len() == 0 && k == w.len() ==> o is End
        }),
{
    if !r.open {
        lemma_pull_closed(r, w, pos, k);
    } else {
        let i = r.index;
        let lines = raw_lines(w, i);
        let rem = pending(r, w, pos, k);
        assert(r.step(EventModel::Pull) == (r, ActionModel::ReadLine));
        if pos < lines.len() {
            assert(pull(r, w, pos) == drive(r, w, pos + 1, EventModel::LineRead(lines[pos as int])));
            assert(drive(r, w, pos + 1, EventModel::LineRead(lines[pos as int])) == (
                Outcome::Line(strip_terminator(lines[pos as int])),
                r,
                pos + 1,
                Set::<nat>::empty(),
            ));
            assert(rem[0] == strip_terminator(lines[pos as int]));
            assert(ready(r, w, pos + 1, k));
            assert(stripped(lines).skip(pos + 1int) + lines_between(w, i + 1, k) =~= rem.drop_first());
        } else {
            assert(stripped(lines).skip(pos as int) =~= Seq::<Seq<char>>::empty());
            assert(rem =~= lines_between(w, i + 1, k));
            lemma_end_of_stream_is_pull(r, w, pos);
            lemma_pull_closed(r.advance(), w, pos, k);
        }
    }
}

/// The lines as the consumer sees them.
pub open spec fn as_outcomes(lines: Seq<Seq<char>>) -> Seq<Outcome> {
    lines.map_values(|l: Seq<char>| Outcome::Line(l))
}

proof fn lemma_run_prefix(r: ReaderModel, w: Contents, pos: nat, k: nat, n: nat)
    requires
        ready(r, w, pos, k),
        n <= pending(r, w, pos, k).len(),
    ensures
        ({
            let (os, r2, p2, opened) = run(r, w, pos, n);
            &&& os == as_outcomes(pending(r, w, pos, k).take(n as int))
            &&& forall|x: nat| #[trigger] opened.contains(x) ==> x < k
        }),
    decreases n,
{
    let rem = pending(r, w, pos, k);
    if n == 0 {
        assert(as_outcomes(rem.take(0)) =~= Seq::<Outcome>::empty());
    } else {
        lemma_pull(r, w, pos, k);
        let (o, r1, p1, s1) = pull(r, w, pos);
        lemma_run_prefix(r1, w, p1, k, (n - 1) as nat);
        assert(as_outcomes(rem.take(n as int)) =~= seq![o] + as_outcomes(
            rem.drop_first().take(n - 1),
        ));
    }
}

proof fn lemma_run_to_end(r: ReaderModel, w: Contents, pos: nat)
    requires
        ready(r, w, pos, w.len()),
    ensures
        run(r, w, pos, pending(r, w, pos, w.len()).len() + 1).0 == as_outcomes(
            pending(r, w, pos, w.len()),
        ).push(Outcome::End),
    decreases pending(r, w, pos, w.len()).len(),
{
    let k = w.len();
    let rem = pending(r, w, pos, k);
    lemma_pull(r, w, pos, k);
    let (o, r1, p1, s1) = pull(r, w, pos);
    if rem.len() == 0 {
        assert(run(r1, w, p1, 0).0 =~= Seq::<Outcome>::empty());
        assert(as_outcomes(rem).push(Outcome::End) =~= seq![o]);
    } else {
        lemma_run_to_end(r1, w, p1);
        assert(as_outcomes(rem).push(Outcome::End) =~= seq![o] + as_outcomes(
            rem.drop_first(),
        ).push(Outcome::End));
    }
}

proof fn lemma_run_facts(r: ReaderModel, w: Contents, pos: nat, n: nat)
    requires
        r.wf(),
    ensures
        ({
            let (os, r2, p2, opened) = run(r, w, pos, n);
            &&& r2.wf()
            &&& r2.sources == r.sources
            &&& forall|x: nat| #[trigger] opened.contains(x) ==> r.index <= x < r.sources.len()
        }),
    decreases n,
{
    if n > 0 {
        lemma_drive_facts(r, w, pos, EventModel::Pull);
        let (o, r1, p1, s1) = pull(r, w, pos);
        lemma_run_facts(r1, w, p1, (n - 1) as nat);
    }
}

/// Over any list of sources that all open, the sequence is exactly their
/// lines, in order, each without its terminator, followed by the end of the
/// sequence.
pub proof fn lemma_readable_sources_concatenate(sources: Seq<SourceModel>, w: Contents)
    requires
        w.len() == sources.len(),
        readable_between(w, 0, w.len()),
    ensures
        run(ReaderModel::initial(sources), w, 0, lines_between(w, 0, w.len()).len() + 1).0
            == as_outcomes(lines_between(w, 0, w.len())).push(Outcome::End),
{
    let r = ReaderModel::initial(sources);
    assert(ready(r, w, 0, w.len()));
    lemma_run_to_end(r, w, 0);
}

/// With at least one file named after the flag, and every named file
/// readable, the sequence is exactly the lines of the files, in order, each
/// without its terminator, followed by the end of the sequence.
pub proof fn lemma_named_files_concatenate(name: Seq<char>, args: Seq<Seq<char>>, w: Contents)
    requires
        file_args_of(name, args).len() > 0,
        w.len() == file_args_of(name, args).len(),
        readable_between(w, 0, w.len()),
    ensures
        run(
            ReaderModel::initial(sources_of(name, args)),
            w,
            0,
            lines_between(w, 0, w.len()).len() + 1,
        ).0 == as_outcomes(lines_between(w, 0, w.len())).push(Outcome::End),
{
    lemma_readable_sources_concatenate(sources_of(name, args), w);
}

/// With no file named after the flag, the sequence is exactly the lines of
/// standard input, each without its terminator, followed by the end of the
/// sequence.
pub proof fn lemma_no_files_yields_stdin_lines(
    name: Seq<char>,
    args: Seq<Seq<char>>,
    stdin: Seq<Seq<char>>,
)
    requires
        file_args_of(name, args).len() == 0,
    ensures
        run(
            ReaderModel::initial(sources_of(name, args)),
            seq![Some(stdin)],
            0,
            stripped(stdin).len() + 1,
        ).0 == as_outcomes(stripped(stdin)).push(Outcome::End),
{
    let w: Contents = seq![Some(stdin)];
    assert(lines_between(w, 1, 1) =~= Seq::<Seq<char>>::empty());
    assert(lines_between(w, 0, 1) =~= stripped(stdin));
    lemma_readable_sources_concatenate(sources_of(name, args), w);
}

/// Every pull keeps the reader well formed and its source list unchanged,
/// never moves back, opens only sources at or after the active one and no
/// further than where it stops, and reports the end only once every source
/// is consumed.
pub proof fn lemma_pull_invariant(r: ReaderModel, w: Contents, pos: nat)
    requires
        r.wf(),
    ensures
        ({
            let (o, r2, p2, opened) = pull(r, w, pos);
            &&& r2.wf()
            &&& r2.sources == r.sources
            &&& r.index <= r2.index
            &&& forall|x: nat| #[trigger] opened.contains(x) ==> r.index <= x <= r2.index && x < r.sources.len()
            &&& o is End ==> r2.exhausted()
        }),
{
    lemma_drive_facts(r, w, pos, EventModel::Pull);
}

/// Once a pull reports the end of the sequence, every later pull reports
/// the end as well.
pub proof fn lemma_end_is_final(r: ReaderModel, w: Contents, pos: nat, n: nat)
    requires
        r.wf(),
        pull(r, w, pos).0 is End,
    ensures
        ({
            let (o, r1, p1, s1) = pull(r, w, pos);
            run(r1, w, p1, n).0 == Seq::new(n, |i: int| Outcome::End)
        }),
    decreases n,
{
    lemma_drive_facts(r, w, pos, EventModel::Pull);
    let (o, r1, p1, s1) = pull(r, w, pos);
    if n > 0 {
        assert(pull(r1, w, p1) == (Outcome::End, r1, p1, Set::<nat>::empty()));
        lemma_end_is_final(r1, w, p1, (n - 1) as nat);
        assert(run(r1, w, p1, n).0 =~= Seq::new(n, |i: int| Outcome::End));
    }
}

/// Sources are opened only when needed: while the readable sources before
/// position `j` still have lines for the pulls made, source `j` and those
/// after it are never opened, whatever opening them would do.
pub proof fn lemma_lazy_open(sources: Seq<SourceModel>, w: Contents, j: nat, n: nat)
    requires
        w.len() == sources.len(),
        j < w.len(),
        readable_between(w, 0, j),
        n <= lines_between(w, 0, j).len(),
    ensures
        ({
            let (os, r2, p2, opened) = run(ReaderModel::initial(sources), w, 0, n);
            &&& os == as_outcomes(lines_between(w, 0, j).take(n as int))
            &&& forall|x: nat| #[trigger] opened.contains(x) ==> x < j
        }),
{
    let r = ReaderModel::initial(sources);
    assert(ready(r, w, 0, j));
    lemma_run_prefix(r, w, 0, j, n);
}

/// With no file named after the flag, standard input is the one source, and
/// it is the only one ever opened.
pub proof fn lemma_no_files_reads_stdin(name: Seq<char>, args: Seq<Seq<char>>, w: Contents, n: nat)
    requires
        file_args_of(name, args).len() == 0,
    ensures
        sources_of(name, args) == seq![SourceModel::Stdin],
        ({
            let (os, r2, p2, opened) = run(ReaderModel::initial(sources_of(name, args)), w, 0, n);
            forall|x: nat| #[trigger] opened.contains(x) ==> sources_of(name, args)[x as int] == SourceModel::Stdin
        }),
{
    lemma_run_facts(ReaderModel::initial(sources_of(name, args)), w, 0, n);
}

} // verus!
