//! The collector: it frames each qualifying entry as a record of the combined
//! document and keeps the count of records and the bytes of text they hold.
use vstd::prelude::*;
use vstd::string::StringExecFns;
use vstd::utf8::{decode_utf8, encode_utf8, valid_utf8};
use crate::naming::{allowed_extensions, is_source_file, qualifies};

verus! {

/// The line that closes each record.
pub const SEPARATOR: &'static str = "----------------------------------------";

/// One file of the input: its name or path, whether it is a regular file (not a
/// directory), and its raw bytes.
pub struct Entry {
    pub name: String,
    pub is_file: bool,
    pub content: Vec<u8>,
}

impl View for Entry {
    type V = (Seq<char>, bool, Seq<u8>);

    open spec fn view(&self) -> (Seq<char>, bool, Seq<u8>) {
        (self.name@, self.is_file, self.content@)
    }
}

/// Why a run could not go on.
#[derive(Debug, PartialEq, Eq, Structural, Clone, Copy)]
pub enum CollectError {
    /// The entry count or the total size would no longer fit in a `u64`.
    Overflow,
}

/// What `String::from_utf8_lossy` makes of a byte sequence.
pub uninterp spec fn lossy_of(b: Seq<u8>) -> Seq<char>;

/// Relies on `String::from_utf8_lossy`: it never fails, replaces each invalid
/// sequence with U+FFFD, and returns valid UTF-8 as it decodes.
#[verifier::external_body]
fn decode_lossy(b: &[u8]) -> (r: String)
    ensures
        r@ == lossy_of(b@),
        valid_utf8(b@) ==> r@ == decode_utf8(b@),
{
    String::from_utf8_lossy(b).into_owned()
}

/// The length of a text in bytes of UTF-8.
pub open spec fn text_len(t: Seq<char>) -> nat {
    encode_utf8(t).len()
}

/// The record of one file in the combined document.
pub open spec fn record_of(name: Seq<char>, text: Seq<char>) -> Seq<char> {
    "File: "@ + name + "\n\n"@ + text + "\n\n"@ + SEPARATOR@ + "\n\n"@
}

/// Whether an entry is taken into the document: a regular file whose
/// extension is on the allowlist.
pub open spec fn counted(e: (Seq<char>, bool, Seq<u8>)) -> bool {
    e.1 && qualifies(e.0)
}

/// How many of `es` are taken into the document.
pub open spec fn count_of(es: Seq<(Seq<char>, bool, Seq<u8>)>) -> nat
    decreases es.len(),
{
    if es.len() == 0 {
        0
    } else {
        count_of(es.drop_last()) + if counted(es.last()) {
            1nat
        } else {
            0nat
        }
    }
}

/// The bytes of text of those of `es` that are taken into the document.
pub open spec fn size_of(es: Seq<(Seq<char>, bool, Seq<u8>)>) -> nat
    decreases es.len(),
{
    if es.len() == 0 {
        0
    } else {
        size_of(es.drop_last()) + if counted(es.last()) {
            text_len(lossy_of(es.last().2))
        } else {
            0nat
        }
    }
}

/// The combined document made from `es`.
pub open spec fn output_of(es: Seq<(Seq<char>, bool, Seq<u8>)>) -> Seq<char>
    decreases es.len(),
{
    if es.len() == 0 {
        Seq::empty()
    } else if counted(es.last()) {
        output_of(es.drop_last()) + record_of(es.last().0, lossy_of(es.last().2))
    } else {
        output_of(es.drop_last())
    }
}

/// The views of a list of entries.
pub open spec fn entry_views(es: Seq<Entry>) -> Seq<(Seq<char>, bool, Seq<u8>)> {
    es.map_values(|e: Entry| e@)
}

/// Appends to `output` the record of a file named `filename` whose text is
/// `content`.
pub fn write_file_content(output: &mut String, filename: &str, content: &str)
    ensures
        final(output)@ == old(output)@ + record_of(filename@, content@),
{
    output.append("File: ");
    output.append(filename);
    output.append("\n\n");
    output.append(content);
    output.append("\n\n");
    output.append(SEPARATOR);
    output.append("\n\n");
}

/// The counters of a run, with the entries seen so far.
pub struct Collector {
    pub entry_count: u64,
    pub total_size: u64,
    pub seen: Ghost<Seq<(Seq<char>, bool, Seq<u8>)>>,
}

/// Whether the counters of `c` can take in `e`.
pub open spec fn fits(c: Collector, e: (Seq<char>, bool, Seq<u8>)) -> bool {
    c.entry_count < u64::MAX && c.total_size + text_len(lossy_of(e.2)) <= u64::MAX
}

impl Collector {
    /// The counters agree with the entries seen.
    pub open spec fn wf(&self) -> bool {
        &&& self.entry_count == count_of(self.seen@)
        &&& self.total_size == size_of(self.seen@)
    }

    /// A collector that has seen nothing.
    pub fn new() -> (r: Collector)
        ensures
            r.wf(),
            r.seen@ == Seq::<(Seq<char>, bool, Seq<u8>)>::empty(),
            r.entry_count == 0,
            r.total_size == 0,
    {
        Collector { entry_count: 0, total_size: 0, seen: Ghost(Seq::empty()) }
    }

    /// Takes in one entry. A qualifying one gives its record, which belongs
    /// next in the document, and moves the counters on; any other is passed
    /// over. Where a counter would overflow, nothing changes and the run
    /// fails.
    pub fn add_entry(&mut self, entry: &Entry) -> (r: Result<Option<String>, CollectError>)
        requires
            old(self).wf(),
        ensures
            final(self).wf(),
            !counted(entry@) ==> r == Ok::<Option<String>, CollectError>(None),
            !counted(entry@) ==> final(self).seen@ == old(self).seen@.push(entry@),
            counted(entry@) && fits(*old(self), entry@) ==> r.is_ok() && r.unwrap().is_some(),
            counted(entry@) && fits(*old(self), entry@) ==> r.unwrap().unwrap()@ == record_of(
                entry.name@,
                lossy_of(entry.content@),
            ),
            counted(entry@) && fits(*old(self), entry@) ==> final(self).seen@ == old(
                self,
            ).seen@.push(entry@),
            counted(entry@) && !fits(*old(self), entry@) ==> r == Err::<Option<String>, CollectError>(
                CollectError::Overflow,
            ),
            counted(entry@) && !fits(*old(self), entry@) ==> final(self).seen@ == old(self).seen@,
    {
        let allowed = allowed_extensions();
        let take = entry.is_file && is_source_file(entry.name.as_str(), allowed.as_slice());
        let ghost before = self.seen@;
        assert(before.push(entry@).drop_last() == before);
        if !take {
            self.seen = Ghost(self.seen@.push(entry@));
            return Ok(None);
        }
        let text = decode_lossy(entry.content.as_slice());
        let len = text.as_str().as_bytes().len();
        if self.entry_count == u64::MAX || len as u64 > u64::MAX - self.total_size {
            return Err(CollectError::Overflow);
        }
        let mut rec = String::new();
        write_file_content(&mut rec, entry.name.as_str(), text.as_str());
        self.entry_count = self.entry_count + 1;
        self.total_size = self.total_size + len as u64;
        self.seen = Ghost(self.seen@.push(entry@));
        Ok(Some(rec))
    }
}

/// The outcome of a whole run.
pub struct Summary {
    pub entry_count: u64,
    pub total_size: u64,
    pub output: String,
}

proof fn lemma_prefix_bounded(es: Seq<(Seq<char>, bool, Seq<u8>)>, j: int)
    requires
        0 <= j <= es.len(),
    ensures
        count_of(es.subrange(0, j)) <= count_of(es),
        size_of(es.subrange(0, j)) <= size_of(es),
    decreases es.len(),
{
    if j == es.len() {
        assert(es.subrange(0, j) == es);
    } else {
        assert(es.drop_last().subrange(0, j) == es.subrange(0, j));
        lemma_prefix_bounded(es.drop_last(), j);
    }
}

/// Runs the collector over `entries` in their order: the result holds how many
/// were taken into the document, the bytes of text they hold, and the document.
/// It fails only where a counter would overflow.
pub fn process_entries(entries: &Vec<Entry>) -> (r: Result<Summary, CollectError>)
    ensures
        r.is_ok() <==> count_of(entry_views(entries@)) <= u64::MAX && size_of(
            entry_views(entries@),
        ) <= u64::MAX,
        r.is_ok() ==> r.unwrap().entry_count == count_of(entry_views(entries@)),
        r.is_ok() ==> r.unwrap().total_size == size_of(entry_views(entries@)),
        r.is_ok() ==> r.unwrap().output@ == output_of(entry_views(entries@)),
{
    let ghost ev = entry_views(entries@);
    let mut c = Collector::new();
    let mut out = String::new();
    let mut i: usize = 0;
    assert(ev.subrange(0, 0) =~= Seq::<(Seq<char>, bool, Seq<u8>)>::empty());
    while i < entries.len()
        invariant
            ev == entry_views(entries@),
            i <= entries@.len(),
            c.wf(),
            c.seen@ == ev.subrange(0, i as int),
            out@ == output_of(c.seen@),
        decreases entries@.len() - i,
    {
        assert(ev.subrange(0, i + 1) == ev.subrange(0, i as int).push(entries@[i as int]@));
        let ghost seen = c.seen@;
        assert(seen.push(entries@[i as int]@).drop_last() == seen);
        match c.add_entry(&entries[i]) {
            Ok(Some(rec)) => {
                out.append(rec.as_str());
            },
            Ok(None) => {},
            Err(e) => {
                proof {
                    lemma_prefix_bounded(ev, i + 1);
                }
                return Err(e);
            },
        }
        i = i + 1;
    }
    assert(ev.subrange(0, i as int) == ev);
    Ok(Summary { entry_count: c.entry_count, total_size: c.total_size, output: out })
}

/// The entry count is the number of entries that are regular files with an
/// extension on the allowlist, each counted once.
pub proof fn lemma_count_is_number_counted(es: Seq<(Seq<char>, bool, Seq<u8>)>)
    ensures
        count_of(es) == es.filter(|e: (Seq<char>, bool, Seq<u8>)| counted(e)).len(),
    decreases es.len(),
{
    let pred = |e: (Seq<char>, bool, Seq<u8>)| counted(e);
    if es.len() > 0 {
        lemma_count_is_number_counted(es.drop_last());
        es.drop_last().lemma_filter_push(es.last(), pred);
        assert(es.drop_last().push(es.last()) == es);
    } else {
        assert(es.filter(pred) =~= Seq::empty());
    }
}

/// An entry that is not taken in adds nothing to the document and moves
/// neither counter.
pub proof fn lemma_skipped_entry_changes_nothing(
    es: Seq<(Seq<char>, bool, Seq<u8>)>,
    e: (Seq<char>, bool, Seq<u8>),
)
    requires
        !counted(e),
    ensures
        count_of(es.push(e)) == count_of(es),
        size_of(es.push(e)) == size_of(es),
        output_of(es.push(e)) == output_of(es),
{
    assert(es.push(e).drop_last() == es);
}

/// A directory is never taken in, whatever its name, and changes nothing.
pub proof fn lemma_directory_never_counted(
    es: Seq<(Seq<char>, bool, Seq<u8>)>,
    name: Seq<char>,
    content: Seq<u8>,
)
    ensures
        !counted((name, false, content)),
        count_of(es.push((name, false, content))) == count_of(es),
        size_of(es.push((name, false, content))) == size_of(es),
        output_of(es.push((name, false, content))) == output_of(es),
{
    lemma_skipped_entry_changes_nothing(es, (name, false, content));
}

proof fn lemma_output_concat(
    a: Seq<(Seq<char>, bool, Seq<u8>)>,
    b: Seq<(Seq<char>, bool, Seq<u8>)>,
)
    ensures
        output_of(a + b) == output_of(a) + output_of(b),
    decreases b.len(),
{
    if b.len() == 0 {
        assert(a + b == a);
        assert(output_of(a) + output_of(b) == output_of(a));
    } else {
        assert((a + b).drop_last() == a + b.drop_last());
        lemma_output_concat(a, b.drop_last());
    }
}

/// Each entry that is taken in appears in the document as its record, between
/// the records of the entries before it and those of the entries after it: the
/// name follows `File: `, then the text as decoded, then the separator line.
pub proof fn lemma_record_in_output(es: Seq<(Seq<char>, bool, Seq<u8>)>, i: int)
    requires
        0 <= i < es.len(),
        counted(es[i]),
    ensures
        output_of(es) == output_of(es.subrange(0, i)) + ("File: "@ + es[i].0 + "\n\n"@ + lossy_of(
            es[i].2,
        ) + "\n\n"@ + SEPARATOR@ + "\n\n"@) + output_of(es.subrange(i + 1, es.len() as int)),
{
    let head = es.subrange(0, i + 1);
    let tail = es.subrange(i + 1, es.len() as int);
    assert(head + tail == es);
    lemma_output_concat(head, tail);
    assert(head.drop_last() == es.subrange(0, i));
}

} // verus!
