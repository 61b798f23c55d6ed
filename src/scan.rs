//! Which index entries are read, and which records of the index are missing
//! from the download directory.
use vstd::prelude::*;

use crate::record::Crate;

verus! {

/// Names that begin with this byte (`.`) are hidden and never visited.
pub open spec fn hidden_marker() -> u8 {
    46u8
}

/// The bytes of `config.json`, the index's own configuration file, which
/// holds no records.
pub open spec fn config_file_name() -> Seq<u8> {
    seq![99u8, 111u8, 110u8, 102u8, 105u8, 103u8, 46u8, 106u8, 115u8, 111u8, 110u8]
}

pub open spec fn is_hidden_name(name: Seq<u8>) -> bool {
    name.len() > 0 && name[0] == hidden_marker()
}

/// Whether a walk of the index visits an entry whose name has these bytes:
/// every name is visited except a hidden one and the configuration file.
/// Names need not be valid text.
pub open spec fn visits(name: Seq<u8>) -> bool {
    !is_hidden_name(name) && name != config_file_name()
}

/// Whether two byte strings are equal.
pub fn same_bytes(a: &[u8], b: &[u8]) -> (r: bool)
    ensures
        r == (a@ == b@),
{
    let n = a.len();
    if n != b.len() {
        return false;
    }
    let mut i: usize = 0;
    while i < n
        invariant
            n == a@.len(),
            n == b@.len(),
            i <= n,
            forall|k: int| 0 <= k < i ==> a@[k] == b@[k],
        decreases n - i,
    {
        if a[i] != b[i] {
            return false;
        }
        i = i + 1;
    }
    assert(a@ =~= b@);
    true
}

/// False for a name that begins with the hidden-file marker.
pub fn is_not_hidden(name: &[u8]) -> (r: bool)
    ensures
        r == !is_hidden_name(name@),
{
    !(name.len() > 0 && name[0] == 46u8)
}

/// False for the name of the index configuration file, compared exactly.
pub fn is_not_config_file(name: &[u8]) -> (r: bool)
    ensures
        r == (name@ != config_file_name()),
{
    let reserved: Vec<u8> = vec![99u8, 111u8, 110u8, 102u8, 105u8, 103u8, 46u8, 106u8, 115u8, 111u8, 110u8];
    assert(reserved@ =~= config_file_name());
    !same_bytes(name, reserved.as_slice())
}

/// Whether a walk of the index enters an entry: the root of the walk
/// (`depth` 0) always, any other entry when its name is visited. The walk
/// applies this test at every depth, before it descends.
pub fn should_visit(depth: usize, name: &[u8]) -> (r: bool)
    ensures
        r == (depth == 0 || visits(name@)),
{
    depth == 0 || (is_not_hidden(name) && is_not_config_file(name))
}

/// JSON's own whitespace: space, tab, line feed, carriage return.
pub open spec fn is_json_space(c: char) -> bool {
    c == ' ' || c == '\t' || c == '\n' || c == '\r'
}

/// A line that holds nothing but whitespace, the empty line included.
pub open spec fn is_blank(line: Seq<char>) -> bool {
    forall|i: int| 0 <= i < line.len() ==> is_json_space(#[trigger] line[i])
}

/// Whether an index line is blank, and so is no record and no malformed one.
pub fn is_blank_line(line: &str) -> (r: bool)
    ensures
        r == is_blank(line@),
{
    let n = line.unicode_len();
    let mut i: usize = 0;
    while i < n
        invariant
            n == line@.len(),
            i <= n,
            forall|k: int| 0 <= k < i ==> is_json_space(#[trigger] line@[k]),
        decreases n - i,
    {
        let c = line.get_char(i);
        if !(c == ' ' || c == '\t' || c == '\n' || c == '\r') {
            return false;
        }
        i = i + 1;
    }
    true
}

/// What one line of an index file gave.
pub enum LineOutcome {
    /// The line is blank: it is passed over without a diagnostic.
    Blank,
    /// The line is not a valid record.
    Malformed,
    /// The line names `record`; `present` tells whether its archive file
    /// exists in the download directory.
    Parsed { record: Crate, present: bool },
}

/// The records named by `lines` whose archives are absent, in line order.
pub open spec fn missing_of(lines: Seq<LineOutcome>) -> Seq<(Seq<char>, Seq<char>)>
    decreases lines.len(),
{
    if lines.len() == 0 {
        Seq::empty()
    } else {
        let prev = missing_of(lines.drop_last());
        match lines.last() {
            LineOutcome::Parsed { record, present } => if present {
                prev
            } else {
                prev.push(record@)
            },
            LineOutcome::Malformed => prev,
            LineOutcome::Blank => prev,
        }
    }
}

/// How many of `lines` are malformed.
pub open spec fn malformed_count(lines: Seq<LineOutcome>) -> nat
    decreases lines.len(),
{
    if lines.len() == 0 {
        0
    } else {
        malformed_count(lines.drop_last()) + if lines.last() is Malformed {
            1nat
        } else {
            0nat
        }
    }
}

/// The result of a scan: the missing records, and how many lines were skipped.
pub struct ScanReport {
    pub missing: Vec<Crate>,
    pub malformed: usize,
}

pub open spec fn records_view(v: Seq<Crate>) -> Seq<(Seq<char>, Seq<char>)> {
    v.map_values(|c: Crate| c@)
}

proof fn lemma_malformed_count_bound(lines: Seq<LineOutcome>)
    ensures
        malformed_count(lines) <= lines.len(),
    decreases lines.len(),
{
    if lines.len() > 0 {
        lemma_malformed_count_bound(lines.drop_last());
    }
}

/// Collects, in order, the records of `lines` whose archives are absent, and
/// counts the lines that were not valid records.
pub fn identify_new_crates(lines: &Vec<LineOutcome>) -> (r: ScanReport)
    ensures
        records_view(r.missing@) == missing_of(lines@),
        r.malformed == malformed_count(lines@),
{
    let mut missing: Vec<Crate> = Vec::new();
    let mut malformed: usize = 0;
    let mut i: usize = 0;
    while i < lines.len()
        invariant
            i <= lines.len(),
            records_view(missing@) == missing_of(lines@.subrange(0, i as int)),
            malformed == malformed_count(lines@.subrange(0, i as int)),
        decreases lines.len() - i,
    {
        let ghost before = lines@.subrange(0, i as int);
        let ghost after = lines@.subrange(0, i + 1);
        assert(after.drop_last() =~= before);
        proof {
            lemma_malformed_count_bound(before);
        }
        match &lines[i] {
            LineOutcome::Malformed => {
                malformed = malformed + 1;
            },
            LineOutcome::Blank => {},
            LineOutcome::Parsed { record, present } => {
                if !*present {
                    let ghost old_missing = missing@;
                    missing.push(record.duplicate());
                    assert(records_view(missing@) =~= records_view(old_missing).push(record@));
                }
            },
        }
        i = i + 1;
    }
    assert(lines@.subrange(0, lines.len() as int) =~= lines@);
    ScanReport { missing, malformed }
}

/// The line names the record `k`, and its archive is absent.
pub open spec fn names_absent(o: LineOutcome, k: (Seq<char>, Seq<char>)) -> bool {
    match o {
        LineOutcome::Parsed { record, present } => !present && record@ == k,
        _ => false,
    }
}

/// The line names the record `k`, and its archive is present.
pub open spec fn names_present(o: LineOutcome, k: (Seq<char>, Seq<char>)) -> bool {
    match o {
        LineOutcome::Parsed { record, present } => present && record@ == k,
        _ => false,
    }
}

/// The filesystem gives one answer per record: no record is seen both
/// present and absent in one scan.
pub open spec fn presence_consistent(lines: Seq<LineOutcome>) -> bool {
    forall|i: int, j: int, k: (Seq<char>, Seq<char>)|
        0 <= i < lines.len() && 0 <= j < lines.len() && #[trigger] names_absent(lines[i], k)
            ==> !#[trigger] names_present(lines[j], k)
}

/// The missing records of consecutive runs of lines are those of each run,
/// one after the other.
pub proof fn lemma_missing_of_concat(a: Seq<LineOutcome>, b: Seq<LineOutcome>)
    ensures
        missing_of(a + b) == missing_of(a) + missing_of(b),
        malformed_count(a + b) == malformed_count(a) + malformed_count(b),
    decreases b.len(),
{
    if b.len() == 0 {
        assert(a + b =~= a);
        assert(missing_of(a) + missing_of(b) =~= missing_of(a));
    } else {
        lemma_missing_of_concat(a, b.drop_last());
        assert((a + b).drop_last() =~= a + b.drop_last());
        assert((a + b).last() == b.last());
        assert(missing_of(a) + missing_of(b.drop_last()).push(b.last()->record@) =~= (
        missing_of(a) + missing_of(b.drop_last())).push(b.last()->record@));
    }
}

/// A malformed line is skipped: the lines before and after it, in the same
/// file or in other files, give the same missing records as without it.
pub proof fn malformed_line_is_skipped(before: Seq<LineOutcome>, after: Seq<LineOutcome>)
    ensures
        missing_of(before + seq![LineOutcome::Malformed] + after) == missing_of(before + after),
        malformed_count(before + seq![LineOutcome::Malformed] + after) == malformed_count(
            before + after,
        ) + 1,
{
    let m = seq![LineOutcome::Malformed];
    lemma_missing_of_concat(before, m);
    lemma_missing_of_concat(before + m, after);
    lemma_missing_of_concat(before, after);
    assert(m.drop_last() =~= Seq::<LineOutcome>::empty());
    assert(m.last() is Malformed);
    reveal_with_fuel(missing_of, 2);
    reveal_with_fuel(malformed_count, 2);
    assert(missing_of(m) =~= Seq::<(Seq<char>, Seq<char>)>::empty());
    assert(malformed_count(m) == 1);
    assert(missing_of(before) + missing_of(m) =~= missing_of(before));
}

/// A blank line is passed over: it adds no missing record and is not
/// counted as malformed.
pub proof fn blank_line_is_skipped(before: Seq<LineOutcome>, after: Seq<LineOutcome>)
    ensures
        missing_of(before + seq![LineOutcome::Blank] + after) == missing_of(before + after),
        malformed_count(before + seq![LineOutcome::Blank] + after) == malformed_count(
            before + after,
        ),
{
    let m = seq![LineOutcome::Blank];
    lemma_missing_of_concat(before, m);
    lemma_missing_of_concat(before + m, after);
    lemma_missing_of_concat(before, after);
    assert(m.drop_last() =~= Seq::<LineOutcome>::empty());
    assert(m.last() is Blank);
    reveal_with_fuel(missing_of, 2);
    reveal_with_fuel(malformed_count, 2);
    assert(missing_of(m) =~= Seq::<(Seq<char>, Seq<char>)>::empty());
    assert(malformed_count(m) == 0);
    assert(missing_of(before) + missing_of(m) =~= missing_of(before));
}

proof fn lemma_missing_members(lines: Seq<LineOutcome>)
    ensures
        forall|k: (Seq<char>, Seq<char>)|
            missing_of(lines).contains(k) <==> exists|i: int|
                0 <= i < lines.len() && #[trigger] names_absent(lines[i], k),
    decreases lines.len(),
{
    if lines.len() > 0 {
        let init = lines.drop_last();
        lemma_missing_members(init);
        assert forall|k: (Seq<char>, Seq<char>)|
            missing_of(lines).contains(k) <==> exists|i: int|
                0 <= i < lines.len() && #[trigger] names_absent(lines[i], k) by {
            let last = lines.len() - 1;
            if missing_of(lines).contains(k) {
                if missing_of(init).contains(k) {
                    let i = choose|i: int| 0 <= i < init.len() && #[trigger] names_absent(init[i], k);
                    assert(lines[i] == init[i]);
                } else {
                    let j = choose|j: int| 0 <= j < missing_of(lines).len() && missing_of(lines)[j] == k;
                    assert(j == missing_of(init).len()) by {
                        if j < missing_of(init).len() {
                            assert(missing_of(init)[j] == k);
                        }
                    }
                    assert(names_absent(lines[last], k));
                }
            }
            if exists|i: int| 0 <= i < lines.len() && #[trigger] names_absent(lines[i], k) {
                let i = choose|i: int| 0 <= i < lines.len() && #[trigger] names_absent(lines[i], k);
                if i < last {
                    assert(init[i] == lines[i]);
                    assert(names_absent(init[i], k));
                    assert(missing_of(init).contains(k));
                    let j = choose|j: int| 0 <= j < missing_of(init).len() && missing_of(init)[j] == k;
                    if names_absent(lines[last], lines[last]->record@) {
                        assert(missing_of(lines) == missing_of(init).push(lines[last]->record@));
                    } else {
                        assert(missing_of(lines) == missing_of(init));
                    }
                    assert(missing_of(lines)[j] == k);
                } else {
                    assert(missing_of(lines) == missing_of(init).push(k));
                    assert(missing_of(lines)[missing_of(init).len() as int] == k);
                }
            }
        }
    }
}

/// A record of the index is missing exactly when its archive is absent: each
/// line that names a record with an absent archive puts it in the missing
/// records, one with a present archive does not, and every missing record is
/// named by some line with an absent archive.
pub proof fn missing_iff_absent(lines: Seq<LineOutcome>)
    requires
        presence_consistent(lines),
    ensures
        forall|i: int, k: (Seq<char>, Seq<char>)|
            0 <= i < lines.len() && #[trigger] names_absent(lines[i], k)
                ==> missing_of(lines).contains(k),
        forall|i: int, k: (Seq<char>, Seq<char>)|
            0 <= i < lines.len() && #[trigger] names_present(lines[i], k)
                ==> !missing_of(lines).contains(k),
        forall|k: (Seq<char>, Seq<char>)|
            #[trigger] missing_of(lines).contains(k) ==> exists|i: int|
                0 <= i < lines.len() && #[trigger] names_absent(lines[i], k),
{
    lemma_missing_members(lines);
}

/// Scanning again after every missing archive was written finds nothing
/// missing: `second` names the same records as `first`, and each archive is
/// now present if it was present before or was among the missing records.
pub proof fn rescan_after_complete_run(first: Seq<LineOutcome>, second: Seq<LineOutcome>)
    requires
        second.len() == first.len(),
        forall|i: int|
            0 <= i < first.len() ==> (#[trigger] second[i] is Parsed <==> first[i] is Parsed),
        forall|i: int|
            0 <= i < first.len() && first[i] is Parsed ==> (#[trigger] second[i])->record@
                == first[i]->record@ && second[i]->present == (first[i]->present
                || missing_of(first).contains(first[i]->record@)),
    ensures
        missing_of(second).len() == 0,
{
    lemma_missing_members(first);
    lemma_missing_members(second);
    if missing_of(second).len() > 0 {
        let k = missing_of(second)[0];
        assert(missing_of(second).contains(k));
        let i = choose|i: int| 0 <= i < second.len() && #[trigger] names_absent(second[i], k);
        assert(first[i] is Parsed);
        assert(names_absent(first[i], k));
    }
}

} // verus!
