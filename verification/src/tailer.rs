//! The bookkeeping of a tailer: a reader that follows a growing file across
//! rotation and hands out its lines, each one once.
//!
//! The tailer here owns no file. Its caller opens, stats and reads, and tells
//! the tailer what it saw; the tailer says what to do next, keeps the read
//! offset and the identity of the file being followed, and cuts what was read
//! into lines. A line is handed out when its line break has been read; what
//! follows the last line break is held back until the rest arrives.

use vstd::prelude::*;

verus! {

/// The byte that ends a line.
pub const LINE_BREAK: u8 = 10;

/// What tells one file from another, whatever its name: device and inode.
#[derive(Clone, Copy, Debug, PartialEq, Eq)]
pub struct FileIdentity {
    pub device: u64,
    pub inode: u64,
}

/// What a look at a file shows: which file it is, and how long.
#[derive(Clone, Copy, Debug, PartialEq, Eq)]
pub struct FileStat {
    pub identity: FileIdentity,
    pub size: u64,
}

/// Where the tailer stands.
#[derive(Clone, Copy, Debug, PartialEq, Eq)]
pub enum Phase {
    /// The open file is the one the path names; it is being read.
    Following,
    /// The path names another file, or the file shrank. The open file is
    /// stale and is read no more.
    Rotated,
}

/// What the caller is to do next.
#[derive(Clone, Copy, Debug, PartialEq, Eq)]
pub enum Action {
    /// Nothing new: wait, then look again.
    Wait,
    /// Read `len` bytes of the open file from `offset` on, and feed them.
    Read { offset: u64, len: u64 },
    /// Open the path anew, and report to `reopen`.
    Reopen,
}

/// The path could not be opened. Nothing can be followed.
#[derive(Clone, Copy, Debug, PartialEq, Eq)]
pub struct OpenError;

/// What a `Tailer` stands for.
pub struct TailerModel {
    pub phase: Phase,
    /// The file being followed.
    pub identity: FileIdentity,
    /// How many bytes of it have been read.
    pub offset: nat,
    /// The bytes read since the last line break: the start of a line whose
    /// end has not been read yet.
    pub pending: Seq<u8>,
}

/// No line break occurs in `bytes`.
pub open spec fn unbroken(bytes: Seq<u8>) -> bool {
    forall|k: int| 0 <= k < bytes.len() ==> #[trigger] bytes[k] != LINE_BREAK
}

/// Each of `lines` is free of line breaks.
pub open spec fn all_unbroken(lines: Seq<Seq<u8>>) -> bool {
    forall|i: int| 0 <= i < lines.len() ==> unbroken(#[trigger] lines[i])
}

/// The lines put end to end, each followed by a line break.
pub open spec fn joined(lines: Seq<Seq<u8>>) -> Seq<u8>
    decreases lines.len(),
{
    if lines.len() == 0 {
        Seq::empty()
    } else {
        joined(lines.drop_last()) + lines.last() + seq![LINE_BREAK]
    }
}

/// `lines` and `rest` are what `bytes` is cut into: the lines that are
/// complete, in order, and what follows the last line break.
pub open spec fn cut_into(bytes: Seq<u8>, lines: Seq<Seq<u8>>, rest: Seq<u8>) -> bool {
    &&& joined(lines) + rest == bytes
    &&& all_unbroken(lines)
    &&& unbroken(rest)
}

/// What follows the last line break in `bytes`: all of `bytes` where there
/// is none.
pub open spec fn held_back(bytes: Seq<u8>) -> Seq<u8>
    decreases bytes.len(),
{
    if bytes.len() == 0 || bytes.last() == LINE_BREAK {
        Seq::empty()
    } else {
        held_back(bytes.drop_last()).push(bytes.last())
    }
}

/// The lines of `bytes` that a line break ends, in order and without their
/// line breaks.
pub open spec fn complete_lines(bytes: Seq<u8>) -> Seq<Seq<u8>>
    decreases bytes.len(),
{
    if bytes.len() == 0 {
        Seq::empty()
    } else if bytes.last() == LINE_BREAK {
        complete_lines(bytes.drop_last()).push(held_back(bytes.drop_last()))
    } else {
        complete_lines(bytes.drop_last())
    }
}

impl TailerModel {
    /// What is held back never holds a line break.
    pub open spec fn wf(self) -> bool {
        unbroken(self.pending)
    }

    /// The file has been replaced or cut short, as far as `observed` shows:
    /// the path names no file or another file, or the file is shorter than
    /// what has been read of it.
    pub open spec fn sees_rotation(self, observed: Option<FileStat>) -> bool {
        match observed {
            None => true,
            Some(stat) => stat.identity != self.identity || stat.size < self.offset,
        }
    }

    /// The tailer that starts on a file: at its end, with nothing held back.
    pub open spec fn start(stat: FileStat) -> TailerModel {
        TailerModel {
            phase: Phase::Following,
            identity: stat.identity,
            offset: stat.size as nat,
            pending: Seq::empty(),
        }
    }

    /// The tailer after a look at the path.
    pub open spec fn after_poll(self, observed: Option<FileStat>) -> TailerModel {
        if self.sees_rotation(observed) {
            TailerModel { phase: Phase::Rotated, ..self }
        } else {
            self
        }
    }

    /// What a look at the path asks for.
    pub open spec fn action(self, observed: Option<FileStat>) -> Action {
        match observed {
            Some(stat) if self.phase == Phase::Following && !self.sees_rotation(observed) => {
                if stat.size > self.offset {
                    Action::Read {
                        offset: self.offset as u64,
                        len: (stat.size - self.offset) as u64,
                    }
                } else {
                    Action::Wait
                }
            },
            _ => Action::Reopen,
        }
    }

    /// The tailer after the path was opened anew. A tailer whose file is
    /// stale starts on the new file: at its start, with nothing held back. A
    /// tailer that still follows its file stays as it is.
    pub open spec fn after_reopen(self, stat: FileStat) -> TailerModel {
        match self.phase {
            Phase::Rotated => TailerModel {
                phase: Phase::Following,
                identity: stat.identity,
                offset: 0,
                pending: Seq::empty(),
            },
            Phase::Following => self,
        }
    }

    /// `after` and `lines` are what feeding `chunk` leads to. While the file
    /// is followed, what was held back and the chunk are cut into lines, and
    /// the offset moves on by the length of the chunk. Once the file is
    /// stale, nothing is taken from it.
    pub open spec fn feeds(self, chunk: Seq<u8>, after: TailerModel, lines: Seq<Seq<u8>>) -> bool {
        match self.phase {
            Phase::Following => {
                &&& after.phase == self.phase
                &&& after.identity == self.identity
                &&& after.offset == self.offset + chunk.len()
                &&& cut_into(self.pending + chunk, lines, after.pending)
            },
            Phase::Rotated => after == self && lines.len() == 0,
        }
    }
}

/// A tailer.
pub struct Tailer {
    phase: Phase,
    identity: FileIdentity,
    offset: u64,
    pending: Vec<u8>,
}

impl View for Tailer {
    type V = TailerModel;

    closed spec fn view(&self) -> TailerModel {
        TailerModel {
            phase: self.phase,
            identity: self.identity,
            offset: self.offset as nat,
            pending: self.pending@,
        }
    }
}

/// The lines as sequences of bytes.
pub open spec fn lines_of(lines: Seq<Vec<u8>>) -> Seq<Seq<u8>> {
    Seq::new(lines.len(), |i: int| lines[i]@)
}

impl Tailer {
    #[verifier::type_invariant]
    spec fn inv(&self) -> bool {
        unbroken(self.pending@)
    }

    /// Starts to follow a file that was just opened, from its end on: what it
    /// holds already is not handed out. `opened` is what the file showed, or
    /// nothing if it could not be opened.
    pub fn register(opened: Option<FileStat>) -> (r: Result<Tailer, OpenError>)
        ensures
            opened matches Some(stat) ==> r matches Ok(tailer) && tailer@ == TailerModel::start(
                stat,
            ),
            opened is None ==> r is Err,
    {
        match opened {
            Some(stat) => Ok(
                Tailer {
                    phase: Phase::Following,
                    identity: stat.identity,
                    offset: stat.size,
                    pending: Vec::new(),
                },
            ),
            None => Err(OpenError),
        }
    }

    /// Where the tailer stands.
    pub fn phase(&self) -> (r: Phase)
        ensures
            r == self@.phase,
    {
        self.phase
    }

    /// The file being followed.
    pub fn identity(&self) -> (r: FileIdentity)
        ensures
            r == self@.identity,
    {
        self.identity
    }

    /// How many bytes of the file have been read.
    pub fn offset(&self) -> (r: u64)
        ensures
            r == self@.offset,
    {
        self.offset
    }

    /// How many bytes are held back.
    pub fn pending_len(&self) -> (r: usize)
        ensures
            r == self@.pending.len(),
            self@.wf(),
    {
        proof {
            use_type_invariant(self);
        }
        self.pending.len()
    }

    /// Takes a look at the path into account and says what to do next.
    /// `observed` is what the path shows now, or nothing if it names no file.
    pub fn poll(&mut self, observed: Option<FileStat>) -> (r: Action)
        ensures
            final(self)@ == old(self)@.after_poll(observed),
            r == old(self)@.action(observed),
    {
        proof {
            use_type_invariant(&*self);
        }
        let rotated = match observed {
            None => true,
            Some(stat) => stat.identity.device != self.identity.device || stat.identity.inode
                != self.identity.inode || stat.size < self.offset,
        };
        if rotated {
            self.phase = Phase::Rotated;
            return Action::Reopen;
        }
        match (self.phase, observed) {
            (Phase::Following, Some(stat)) => {
                if stat.size > self.offset {
                    Action::Read { offset: self.offset, len: stat.size - self.offset }
                } else {
                    Action::Wait
                }
            },
            _ => Action::Reopen,
        }
    }

    /// Takes the outcome of opening the path anew into account. With a file
    /// in hand, a tailer whose file is stale follows the new one from its
    /// start; what was held back of the old file is dropped. With none it
    /// gives up.
    pub fn reopen(&mut self, opened: Option<FileStat>) -> (r: Result<(), OpenError>)
        ensures
            opened matches Some(stat) ==> r is Ok && final(self)@ == old(self)@.after_reopen(stat),
            opened is None ==> r is Err && final(self)@ == old(self)@,
    {
        proof {
            use_type_invariant(&*self);
        }
        match (opened, self.phase) {
            (Some(stat), Phase::Rotated) => {
                self.phase = Phase::Following;
                self.identity = stat.identity;
                self.offset = 0;
                self.pending = Vec::new();
                Ok(())
            },
            (Some(_), Phase::Following) => Ok(()),
            (None, _) => Err(OpenError),
        }
    }

    /// Takes in what was read at the offset and hands out the lines that it
    /// completes, without their line breaks.
    pub fn feed(&mut self, chunk: &[u8]) -> (lines: Vec<Vec<u8>>)
        requires
            old(self)@.phase == Phase::Following ==> old(self)@.offset + chunk@.len() <= u64::MAX,
        ensures
            old(self)@.feeds(chunk@, final(self)@, lines_of(lines@)),
            old(self)@.phase == Phase::Following ==> lines_of(lines@) == complete_lines(
                old(self)@.pending + chunk@,
            ) && final(self)@.pending == held_back(old(self)@.pending + chunk@),
            final(self)@.wf(),
    {
        proof {
            use_type_invariant(&*self);
        }
        let mut lines: Vec<Vec<u8>> = Vec::new();
        match self.phase {
            Phase::Rotated => {
                return lines;
            },
            Phase::Following => {},
        }
        let ghost before = self@;
        let mut line: Vec<u8> = Vec::new();
        core::mem::swap(&mut line, &mut self.pending);
        let mut i: usize = 0;
        assert(joined(lines_of(lines@)) =~= Seq::<u8>::empty());
        assert(before.pending + chunk@.take(0) =~= before.pending);
        while i < chunk.len()
            invariant
                i <= chunk.len(),
                cut_into(before.pending + chunk@.take(i as int), lines_of(lines@), line@),
            decreases chunk.len() - i,
        {
            let byte = chunk[i];
            let ghost sofar = before.pending + chunk@.take(i as int);
            let ghost prior = lines_of(lines@);
            assert(before.pending + chunk@.take(i + 1) =~= sofar + seq![byte]);
            let ghost held = line@;
            if byte == LINE_BREAK {
                let mut done: Vec<u8> = Vec::new();
                core::mem::swap(&mut done, &mut line);
                lines.push(done);
                proof {
                    let now = lines_of(lines@);
                    assert(now.drop_last() =~= prior);
                    assert(now.last() == held);
                    assert(joined(now) == joined(prior) + held + seq![LINE_BREAK]);
                    assert(joined(now) + line@ =~= sofar + seq![byte]);
                    assert forall|k: int| 0 <= k < now.len() implies unbroken(#[trigger] now[k]) by {
                        if k < prior.len() {
                            assert(now[k] == prior[k]);
                        }
                    }
                }
            } else {
                line.push(byte);
                proof {
                    assert(lines_of(lines@) =~= prior);
                    assert(joined(prior) + line@ =~= sofar + seq![byte]);
                }
            }
            i += 1;
        }
        assert(chunk@.take(chunk@.len() as int) =~= chunk@);
        proof {
            lemma_cut_is_the_cut(before.pending + chunk@, lines_of(lines@), line@);
        }
        self.pending = line;
        self.offset = self.offset + chunk.len() as u64;
        lines
    }
}

/// Joining lines goes along with putting sequences of lines end to end.
pub proof fn lemma_joined_concat(first: Seq<Seq<u8>>, second: Seq<Seq<u8>>)
    ensures
        joined(first + second) == joined(first) + joined(second),
    decreases second.len(),
{
    if second.len() == 0 {
        assert(first + second =~= first);
        assert(joined(first) + joined(second) =~= joined(first));
    } else {
        lemma_joined_concat(first, second.drop_last());
        assert((first + second).drop_last() =~= first + second.drop_last());
        assert((first + second).last() == second.last());
        assert(joined(first + second) =~= joined(first) + joined(second));
    }
}

/// Bytes can be cut into lines and a rest in one way only.
pub proof fn lemma_cut_is_unique(
    bytes: Seq<u8>,
    lines: Seq<Seq<u8>>,
    rest: Seq<u8>,
    other_lines: Seq<Seq<u8>>,
    other_rest: Seq<u8>,
)
    requires
        cut_into(bytes, lines, rest),
        cut_into(bytes, other_lines, other_rest),
    ensures
        lines == other_lines,
        rest == other_rest,
    decreases lines.len(),
{
    let head = joined(lines);
    let other_head = joined(other_lines);
    // The last line break of `bytes` ends both heads: neither rest holds one.
    if lines.len() > 0 {
        lemma_break_not_in_rest(other_head, other_rest, head.len() - 1);
    }
    if other_lines.len() > 0 {
        lemma_break_not_in_rest(head, rest, other_head.len() - 1);
    }
    if lines.len() == 0 {
        assert(lines =~= other_lines);
        assert(rest =~= other_rest);
    } else {
        assert(head =~= bytes.subrange(0, head.len() as int));
        assert(other_head =~= bytes.subrange(0, head.len() as int));
        assert(rest =~= bytes.subrange(head.len() as int, bytes.len() as int));
        assert(other_rest =~= bytes.subrange(head.len() as int, bytes.len() as int));
        // Without that line break, what is left is cut into the lines before
        // the last, and the last line as the rest.
        let inner = head.drop_last();
        assert(inner =~= joined(lines.drop_last()) + lines.last());
        assert(inner =~= joined(other_lines.drop_last()) + other_lines.last());
        lemma_cut_is_unique(
            inner,
            lines.drop_last(),
            lines.last(),
            other_lines.drop_last(),
            other_lines.last(),
        );
        assert(lines =~= lines.drop_last().push(lines.last()));
        assert(other_lines =~= other_lines.drop_last().push(other_lines.last()));
    }
}

/// A line break at position `k` of `head + rest` lies in `head`, where
/// `rest` holds none.
proof fn lemma_break_not_in_rest(head: Seq<u8>, rest: Seq<u8>, k: int)
    requires
        unbroken(rest),
        0 <= k < (head + rest).len(),
        (head + rest)[k] == LINE_BREAK,
    ensures
        k < head.len(),
{
    if k >= head.len() {
        assert((head + rest)[k] == rest[k - head.len()]);
    }
}

/// `complete_lines` and `held_back` cut bytes into lines and a rest.
pub proof fn lemma_cut(bytes: Seq<u8>)
    ensures
        cut_into(bytes, complete_lines(bytes), held_back(bytes)),
    decreases bytes.len(),
{
    if bytes.len() == 0 {
        assert(joined(complete_lines(bytes)) + held_back(bytes) =~= bytes);
    } else {
        let front = bytes.drop_last();
        lemma_cut(front);
        assert(bytes =~= front.push(bytes.last()));
        if bytes.last() == LINE_BREAK {
            let lines = complete_lines(bytes);
            assert(lines.drop_last() =~= complete_lines(front));
            assert(lines.last() == held_back(front));
            assert(joined(lines) + held_back(bytes) =~= bytes);
            assert forall|i: int| 0 <= i < lines.len() implies unbroken(#[trigger] lines[i]) by {
                if i < lines.len() - 1 {
                    assert(lines[i] == complete_lines(front)[i]);
                }
            }
        } else {
            assert(joined(complete_lines(bytes)) + held_back(bytes) =~= bytes);
        }
    }
}

/// However bytes are cut into lines and a rest, the lines are
/// `complete_lines` and the rest is `held_back`.
pub proof fn lemma_cut_is_the_cut(bytes: Seq<u8>, lines: Seq<Seq<u8>>, rest: Seq<u8>)
    requires
        cut_into(bytes, lines, rest),
    ensures
        lines == complete_lines(bytes),
        rest == held_back(bytes),
{
    lemma_cut(bytes);
    lemma_cut_is_unique(bytes, lines, rest, complete_lines(bytes), held_back(bytes));
}

/// How what is read is split into chunks makes no difference: feeding one
/// chunk and then another hands out the lines, and leaves the tailer, that
/// feeding both at once does.
pub proof fn lemma_feeding_in_parts(
    start: TailerModel,
    first: Seq<u8>,
    middle: TailerModel,
    first_lines: Seq<Seq<u8>>,
    second: Seq<u8>,
    end: TailerModel,
    second_lines: Seq<Seq<u8>>,
    whole_end: TailerModel,
    whole_lines: Seq<Seq<u8>>,
)
    requires
        start.feeds(first, middle, first_lines),
        middle.feeds(second, end, second_lines),
        start.feeds(first + second, whole_end, whole_lines),
    ensures
        whole_lines == first_lines + second_lines,
        whole_end == end,
{
    match start.phase {
        Phase::Rotated => {
            assert(whole_lines =~= first_lines + second_lines);
        },
        Phase::Following => {
            let both = first_lines + second_lines;
            lemma_joined_concat(first_lines, second_lines);
            assert(joined(both) + end.pending =~= start.pending + (first + second)) by {
                assert(joined(first_lines) + middle.pending == start.pending + first);
                assert(joined(second_lines) + end.pending == middle.pending + second);
                assert(joined(both) + end.pending =~= joined(first_lines) + (joined(second_lines)
                    + end.pending));
                assert(joined(first_lines) + (middle.pending + second) =~= (joined(first_lines)
                    + middle.pending) + second);
                assert((start.pending + first) + second =~= start.pending + (first + second));
            }
            assert(all_unbroken(both)) by {
                assert forall|i: int| 0 <= i < both.len() implies unbroken(#[trigger] both[i]) by {
                    if i < first_lines.len() {
                        assert(both[i] == first_lines[i]);
                    } else {
                        assert(both[i] == second_lines[i - first_lines.len()]);
                    }
                }
            }
            lemma_cut_is_unique(
                start.pending + (first + second),
                both,
                end.pending,
                whole_lines,
                whole_end.pending,
            );
        },
    }
}

/// Every line is handed out once, in order, across a rotation. A tailer
/// that holds nothing back reads the lines `old_lines` of the file it
/// follows. The rotation is noticed; whatever is still fed from the stale
/// file is left aside. The path is opened anew, and the new file's lines
/// `new_lines` are read, with the unfinished line `rest` after them. What
/// was handed out is then `old_lines` before the rotation, nothing from the
/// stale file, and `new_lines` after it; `rest` is held back.
pub proof fn lemma_lines_across_rotation(
    start: TailerModel,
    old_lines: Seq<Seq<u8>>,
    read_old: TailerModel,
    handed_old: Seq<Seq<u8>>,
    observed: Option<FileStat>,
    stale: Seq<u8>,
    read_stale: TailerModel,
    handed_stale: Seq<Seq<u8>>,
    opened: FileStat,
    new_lines: Seq<Seq<u8>>,
    rest: Seq<u8>,
    read_new: TailerModel,
    handed_new: Seq<Seq<u8>>,
)
    requires
        start.phase == Phase::Following,
        start.pending.len() == 0,
        all_unbroken(old_lines),
        all_unbroken(new_lines),
        unbroken(rest),
        start.feeds(joined(old_lines), read_old, handed_old),
        read_old.sees_rotation(observed),
        read_old.after_poll(observed).feeds(stale, read_stale, handed_stale),
        read_stale.after_reopen(opened).feeds(joined(new_lines) + rest, read_new, handed_new),
    ensures
        handed_old == old_lines,
        handed_stale.len() == 0,
        handed_new == new_lines,
        read_new.pending == rest,
        read_new.identity == opened.identity,
        read_new.offset == joined(new_lines).len() + rest.len(),
{
    let none = Seq::<u8>::empty();
    assert(start.pending =~= none);
    assert(none + joined(old_lines) =~= joined(old_lines));
    assert(joined(old_lines) + none =~= joined(old_lines));
    lemma_cut_is_unique(joined(old_lines), old_lines, none, handed_old, read_old.pending);
    let fresh = read_stale.after_reopen(opened);
    assert(fresh.pending + (joined(new_lines) + rest) =~= joined(new_lines) + rest);
    lemma_cut_is_unique(joined(new_lines) + rest, new_lines, rest, handed_new, read_new.pending);
}

} // verus!
