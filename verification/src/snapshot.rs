use vstd::prelude::*;
use crate::naming::{hex_id, path_join, spec_hex_id, spec_path_join};
use crate::runstore::RunStoreRecord;
use crate::text::{chars_of, decimal, digit_char, owned, push_str, zero_padded, zero_padded_string, lemma_decimal_len};
use vstd::string::StringSliceAdditionalSpecFns;

verus! {

/// Width of the zero-padded sequence number in a snapshot's file name.
pub const SNAPSHOT_SEQUENCE_WIDTH: usize = 20;

/// Where a snapshot of a run was archived.
#[derive(Debug, PartialEq, Eq)]
pub struct SnapshotMetadata {
    pub run_id: String,
    pub sequence: u64,
    pub path: String,
}

/// Which snapshots of a run a retention pass kept and deleted.
#[derive(Debug, Default, PartialEq, Eq)]
pub struct SnapshotRetentionReport {
    pub run_id: String,
    pub retained_sequences: Vec<u64>,
    pub deleted_sequences: Vec<u64>,
}

/// Keeps checkpoints of runs, one per run and sequence number.
pub trait SnapshotArchive {
    fn archive(&self, record: &RunStoreRecord) -> Result<SnapshotMetadata, String>;

    fn load(&self, run_id: &str, sequence: u64) -> Result<Option<RunStoreRecord>, String>;

    fn list(&self, run_id: &str) -> Result<Vec<SnapshotMetadata>, String>;

    fn retain_latest(&self, run_id: &str, keep: usize) -> Result<SnapshotRetentionReport, String>;
}

/// Keeps snapshots as JSON files in one directory per run; the file work is
/// done by the application around this library.
pub struct FileSnapshotArchive {
    root: String,
}

/// The file name of the snapshot taken after event `sequence`.
pub open spec fn snapshot_file_name(sequence: u64) -> Seq<char> {
    zero_padded(sequence as nat, SNAPSHOT_SEQUENCE_WIDTH as nat) + ".json"@
}

impl FileSnapshotArchive {
    pub fn new(root: &str) -> (r: Self)
        ensures
            r.root_path() == root@,
    {
        FileSnapshotArchive { root: owned(root) }
    }

    pub closed spec fn root_path(&self) -> Seq<char> {
        self.root@
    }

    /// The root directory.
    pub fn root(&self) -> (r: &str)
        ensures
            r@ == self.root_path(),
    {
        self.root.as_str()
    }

    /// The directory of a run's snapshots: the run's hex id under the root.
    pub fn run_root(&self, run_id: &str) -> (r: String)
        ensures
            r@ == spec_path_join(self.root_path(), spec_hex_id(run_id.spec_bytes())),
    {
        let id = hex_id(run_id);
        path_join(self.root.as_str(), id.as_str())
    }

    /// The file of the snapshot of `run_id` taken after event `sequence`.
    pub fn snapshot_path(&self, run_id: &str, sequence: u64) -> (r: String)
        ensures
            r@ == spec_path_join(
                spec_path_join(self.root_path(), spec_hex_id(run_id.spec_bytes())),
                snapshot_file_name(sequence),
            ),
    {
        let run_root = self.run_root(run_id);
        let mut name = zero_padded_string(sequence, SNAPSHOT_SEQUENCE_WIDTH);
        push_str(&mut name, ".json");
        path_join(run_root.as_str(), name.as_str())
    }
}

// ---------------------------------------------------------------------------
// Retention
// ---------------------------------------------------------------------------

/// Which snapshots to delete so that the `keep` latest remain: the oldest
/// `len - keep` of the list (ordered oldest first), none if `keep` covers all.
pub open spec fn delete_count(len: nat, keep: nat) -> nat {
    if len > keep { (len - keep) as nat } else { 0 }
}

/// Plans a retention pass over a run's snapshot sequence numbers, ordered oldest first.
pub fn retention_plan(run_id: &str, sequences: &Vec<u64>, keep: usize) -> (r: SnapshotRetentionReport)
    ensures
        r.run_id@ == run_id@,
        r.deleted_sequences@ == sequences@.subrange(0, delete_count(sequences@.len(), keep as nat) as int),
        r.retained_sequences@ == sequences@.subrange(
            delete_count(sequences@.len(), keep as nat) as int,
            sequences@.len() as int,
        ),
{
    let deleting = sequences.len().saturating_sub(keep);
    let mut deleted: Vec<u64> = Vec::new();
    let mut retained: Vec<u64> = Vec::new();
    let mut i: usize = 0;
    while i < sequences.len()
        invariant
            deleting == delete_count(sequences@.len(), keep as nat),
            i <= sequences@.len(),
            i <= deleting ==> deleted@ == sequences@.subrange(0, i as int) && retained@.len() == 0,
            i > deleting ==> deleted@ == sequences@.subrange(0, deleting as int) && retained@
                == sequences@.subrange(deleting as int, i as int),
        decreases sequences@.len() - i,
    {
        if i < deleting {
            deleted.push(sequences[i]);
            assert(deleted@ =~= sequences@.subrange(0, i + 1));
        } else {
            retained.push(sequences[i]);
            assert(retained@ =~= sequences@.subrange(deleting as int, i + 1));
        }
        i = i + 1;
    }
    assert(retained@ =~= sequences@.subrange(deleting as int, sequences@.len() as int));
    SnapshotRetentionReport { run_id: owned(run_id), retained_sequences: retained, deleted_sequences: deleted }
}

// ---------------------------------------------------------------------------
// Reading a run's directory
// ---------------------------------------------------------------------------

/// The extension and stem of a file name (as `Path::extension` and
/// `Path::file_stem` split it): the text after and before the last dot, unless
/// there is no dot, the only dot leads the name, or the name is `..`.
pub open spec fn split_extension(name: Seq<char>) -> Option<(Seq<char>, Seq<char>)> {
    if name == ".."@ {
        None
    } else {
        match last_dot(name, name.len() as int) {
            Some(i) => if i == 0 {
                None
            } else {
                Some((name.subrange(0, i), name.subrange(i + 1, name.len() as int)))
            },
            None => None,
        }
    }
}

/// The position of the last `.` among the first `n` characters.
pub open spec fn last_dot(name: Seq<char>, n: int) -> Option<int>
    decreases n,
{
    if n <= 0 {
        None
    } else if name[n - 1] == '.' {
        Some(n - 1)
    } else {
        last_dot(name, n - 1)
    }
}

/// The value of a string of decimal digits.
pub open spec fn digits_value(s: Seq<char>) -> nat
    decreases s.len(),
{
    if s.len() == 0 {
        0
    } else {
        digits_value(s.drop_last()) * 10 + char_digit(s.last())
    }
}

/// The digit a decimal digit character stands for.
pub open spec fn char_digit(c: char) -> nat {
    ((c as int) - ('0' as int)) as nat
}

/// The character is a decimal digit.
pub open spec fn is_digit(c: char) -> bool {
    '0' <= c && c <= '9'
}

/// How parsing the first `n` characters of `digits` as a `u64` goes, digit by
/// digit from the left: the first non-digit or the first overflow stops it.
pub open spec fn parse_prefix(digits: Seq<char>, n: int) -> Result<u64, Seq<char>>
    decreases n,
{
    if n <= 0 {
        Ok(0)
    } else {
        match parse_prefix(digits, n - 1) {
            Err(e) => Err(e),
            Ok(v) => if !is_digit(digits[n - 1]) {
                Err("invalid digit found in string"@)
            } else if v * 10 + char_digit(digits[n - 1]) > u64::MAX {
                Err("number too large to fit in target type"@)
            } else {
                Ok((v * 10 + char_digit(digits[n - 1])) as u64)
            },
        }
    }
}

/// What parsing `s` as a `u64` gives (as `str::parse::<u64>` does, with the
/// message its error displays): an optional leading `+` before at least one
/// more character, then decimal digits.
pub open spec fn parse_u64_spec(s: Seq<char>) -> Result<u64, Seq<char>> {
    if s.len() == 0 {
        Err("cannot parse integer from empty string"@)
    } else {
        let digits = if s[0] == '+' && s.len() > 1 { s.drop_first() } else { s };
        parse_prefix(digits, digits.len() as int)
    }
}

proof fn lemma_parse_error_sticks(digits: Seq<char>, k: int, n: int)
    requires
        0 <= k <= n,
        parse_prefix(digits, k) is Err,
    ensures
        parse_prefix(digits, n) == parse_prefix(digits, k),
    decreases n - k,
{
    if n > k {
        lemma_parse_error_sticks(digits, k, n - 1);
    }
}

proof fn lemma_last_dot_bound(name: Seq<char>, n: int)
    requires
        0 <= n <= name.len(),
    ensures
        last_dot(name, n) matches Some(i) ==> 0 <= i < n && name[i] == '.',
    decreases n,
{
    if n > 0 {
        lemma_last_dot_bound(name, n - 1);
    }
}

proof fn lemma_char_digit(d: nat)
    requires
        d < 10,
    ensures
        char_digit(digit_char(d)) == d,
        is_digit(digit_char(d)),
{
    if d == 0 { assert(('0' as int) - ('0' as int) == 0); }
    else if d == 1 { assert(('1' as int) - ('0' as int) == 1); }
    else if d == 2 { assert(('2' as int) - ('0' as int) == 2); }
    else if d == 3 { assert(('3' as int) - ('0' as int) == 3); }
    else if d == 4 { assert(('4' as int) - ('0' as int) == 4); }
    else if d == 5 { assert(('5' as int) - ('0' as int) == 5); }
    else if d == 6 { assert(('6' as int) - ('0' as int) == 6); }
    else if d == 7 { assert(('7' as int) - ('0' as int) == 7); }
    else if d == 8 { assert(('8' as int) - ('0' as int) == 8); }
    else { assert(('9' as int) - ('0' as int) == 9); }
}

/// Parses a decimal `u64`.
pub fn parse_u64(s: &str) -> (r: Result<u64, String>)
    ensures
        match (r, parse_u64_spec(s@)) {
            (Ok(v), Ok(w)) => v == w,
            (Err(e), Err(m)) => e@ == m,
            _ => false,
        },
{
    let chars = chars_of(s);
    if chars.len() == 0 {
        return Err(owned("cannot parse integer from empty string"));
    }
    let start: usize = if chars[0] == '+' && chars.len() > 1 { 1 } else { 0 };
    let ghost digits = if s@[0] == '+' && s@.len() > 1 { s@.drop_first() } else { s@ };
    let mut value: u64 = 0;
    let mut i: usize = start;
    assert(digits == chars@.subrange(start as int, chars@.len() as int));
    while i < chars.len()
        invariant
            chars@ == s@,
            chars@.len() > 0,
            start <= i <= chars@.len(),
            start == 0 || start == 1,
            digits == chars@.subrange(start as int, chars@.len() as int),
            parse_u64_spec(s@) == parse_prefix(digits, digits.len() as int),
            parse_prefix(digits, i - start) == Ok::<u64, Seq<char>>(value),
        decreases chars@.len() - i,
    {
        let c = chars[i];
        assert(digits[i - start] == c);
        if !('0' <= c && c <= '9') {
            proof {
                assert(parse_prefix(digits, i - start + 1) == Err::<u64, Seq<char>>("invalid digit found in string"@));
                lemma_parse_error_sticks(digits, i - start + 1, digits.len() as int);
            }
            return Err(owned("invalid digit found in string"));
        }
        let d = (c as u32 - '0' as u32) as u64;
        assert(d == char_digit(c));
        if value > 1844674407370955161 || (value == 1844674407370955161 && d > 5) {
            proof {
                assert(parse_prefix(digits, i - start + 1) == Err::<u64, Seq<char>>("number too large to fit in target type"@));
                lemma_parse_error_sticks(digits, i - start + 1, digits.len() as int);
            }
            return Err(owned("number too large to fit in target type"));
        }
        value = value * 10 + d;
        i = i + 1;
    }
    Ok(value)
}

proof fn lemma_sequences_error_sticks(names: Seq<Seq<char>>, k: int, n: int)
    requires
        0 <= k <= n <= names.len(),
        snapshot_entries_spec(names.subrange(0, k)) is Err,
    ensures
        snapshot_entries_spec(names.subrange(0, n)) == snapshot_entries_spec(names.subrange(0, k)),
    decreases n - k,
{
    if n > k {
        lemma_sequences_error_sticks(names, k, n - 1);
        assert(names.subrange(0, n).drop_last() == names.subrange(0, n - 1));
    }
}

/// Finds the last dot of a file name.
fn find_last_dot(name: &Vec<char>) -> (r: Option<usize>)
    ensures
        match r {
            Some(i) => last_dot(name@, name@.len() as int) == Some(i as int),
            None => last_dot(name@, name@.len() as int) is None,
        },
{
    let mut n: usize = name.len();
    while n > 0
        invariant
            n <= name@.len(),
            last_dot(name@, name@.len() as int) == last_dot(name@, n as int),
        decreases n,
    {
        if name[n - 1] == '.' {
            return Some(n - 1);
        }
        n = n - 1;
    }
    None
}

/// The snapshot files in a run directory's listing, in listing order: each
/// name whose extension is `json`, with the number its stem parses as (which
/// it must) and the name's position in the listing.
pub open spec fn snapshot_entries_spec(names: Seq<Seq<char>>) -> Result<Seq<(u64, usize)>, Seq<char>>
    decreases names.len(),
{
    if names.len() == 0 {
        Ok(Seq::empty())
    } else {
        match snapshot_entries_spec(names.drop_last()) {
            Err(e) => Err(e),
            Ok(found) => match split_extension(names.last()) {
                Some((stem, ext)) => if ext == "json"@ {
                    match parse_u64_spec(stem) {
                        Ok(v) => Ok(found.push((v, (names.len() - 1) as usize))),
                        Err(e) => Err(e),
                    }
                } else {
                    Ok(found)
                },
                None => Ok(found),
            },
        }
    }
}

/// `e` placed into `sorted` after every entry whose sequence number is not
/// greater than its own.
pub open spec fn insert_by_sequence(sorted: Seq<(u64, usize)>, e: (u64, usize)) -> Seq<(u64, usize)>
    decreases sorted.len(),
{
    if sorted.len() == 0 {
        seq![e]
    } else if sorted.last().0 <= e.0 {
        sorted.push(e)
    } else {
        insert_by_sequence(sorted.drop_last(), e).push(sorted.last())
    }
}

/// The entries ordered by sequence number, keeping listing order among equal
/// numbers (the stable sort `sort_by_key` performs).
pub open spec fn sorted_by_sequence(s: Seq<(u64, usize)>) -> Seq<(u64, usize)>
    decreases s.len(),
{
    if s.len() == 0 {
        Seq::empty()
    } else {
        insert_by_sequence(sorted_by_sequence(s.drop_last()), s.last())
    }
}

/// Entry `a` comes before entry `b`: a smaller sequence number, or the same
/// number and an earlier place in the listing.
pub open spec fn entry_before(a: (u64, usize), b: (u64, usize)) -> bool {
    a.0 < b.0 || (a.0 == b.0 && a.1 < b.1)
}

/// The entries are strictly ordered by sequence number, then listing position.
pub open spec fn entries_ordered(s: Seq<(u64, usize)>) -> bool {
    forall|i: int, j: int| 0 <= i < j < s.len() ==> entry_before(s[i], s[j])
}

proof fn lemma_insert_by_sequence_keeps_order(sorted: Seq<(u64, usize)>, e: (u64, usize))
    requires
        entries_ordered(sorted),
        forall|i: int| 0 <= i < sorted.len() ==> (#[trigger] sorted[i]).1 < e.1,
    ensures
        entries_ordered(insert_by_sequence(sorted, e)),
        insert_by_sequence(sorted, e).to_multiset() == sorted.to_multiset().insert(e),
    decreases sorted.len(),
{
    broadcast use vstd::seq_lib::group_to_multiset_ensures;

    if sorted.len() == 0 {
        assert(seq![e] =~= Seq::<(u64, usize)>::empty().push(e));
    } else if sorted.last().0 <= e.0 {
        let r = sorted.push(e);
        assert forall|i: int, j: int| 0 <= i < j < r.len() implies entry_before(r[i], r[j]) by {
            if j == sorted.len() {
                assert(r[i] == sorted[i]);
                assert(i == sorted.len() - 1 || entry_before(sorted[i], sorted[sorted.len() - 1]));
            }
        }
    } else {
        let init = sorted.drop_last();
        let last = sorted.last();
        assert(sorted =~= init.push(last));
        assert forall|i: int| 0 <= i < init.len() implies (#[trigger] init[i]).1 < e.1 by {
            assert(init[i] == sorted[i]);
        }
        lemma_insert_by_sequence_keeps_order(init, e);
        let r = insert_by_sequence(init, e);
        assert forall|i: int| 0 <= i < r.len() implies entry_before(#[trigger] r[i], last) by {
            assert(r.to_multiset().count(r[i]) > 0);
            if r[i] != e {
                assert(init.to_multiset().count(r[i]) > 0);
                assert(init.contains(r[i]));
                let j = choose|j: int| 0 <= j < init.len() && init[j] == r[i];
                assert(entry_before(sorted[j], sorted[sorted.len() - 1]));
            }
        }
        let out = r.push(last);
        assert forall|i: int, j: int| 0 <= i < j < out.len() implies entry_before(out[i], out[j]) by {
            if j == r.len() {
                assert(out[i] == r[i]);
            } else {
                assert(out[i] == r[i]);
                assert(out[j] == r[j]);
            }
        }
    }
}

proof fn lemma_sorted_by_sequence_keeps_order(s: Seq<(u64, usize)>)
    requires
        forall|i: int, j: int| 0 <= i < j < s.len() ==> s[i].1 < s[j].1,
    ensures
        entries_ordered(sorted_by_sequence(s)),
        sorted_by_sequence(s).to_multiset() == s.to_multiset(),
    decreases s.len(),
{
    broadcast use vstd::seq_lib::group_to_multiset_ensures;

    if s.len() > 0 {
        let init = s.drop_last();
        assert forall|i: int, j: int| 0 <= i < j < init.len() implies init[i].1 < init[j].1 by {
            assert(init[i] == s[i]);
            assert(init[j] == s[j]);
        }
        lemma_sorted_by_sequence_keeps_order(init);
        let sorted = sorted_by_sequence(init);
        assert forall|i: int| 0 <= i < sorted.len() implies (#[trigger] sorted[i]).1 < s.last().1 by {
            assert(sorted.to_multiset().count(sorted[i]) > 0);
            assert(init.to_multiset().count(sorted[i]) > 0);
            assert(init.contains(sorted[i]));
            let j = choose|j: int| 0 <= j < init.len() && init[j] == sorted[i];
            assert(s[j] == init[j]);
        }
        lemma_insert_by_sequence_keeps_order(sorted, s.last());
        assert(s =~= init.push(s.last()));
    }
}

proof fn lemma_entries_positions(names: Seq<Seq<char>>, found: Seq<(u64, usize)>)
    requires
        names.len() <= usize::MAX,
        snapshot_entries_spec(names) == Ok::<Seq<(u64, usize)>, Seq<char>>(found),
    ensures
        forall|i: int, j: int| 0 <= i < j < found.len() ==> found[i].1 < found[j].1,
        forall|i: int| 0 <= i < found.len() ==> (#[trigger] found[i]).1 < names.len(),
    decreases names.len(),
{
    if names.len() > 0 {
        let init = names.drop_last();
        if let Ok(before) = snapshot_entries_spec(init) {
            lemma_entries_positions(init, before);
            if found != before {
                assert(found == before.push(found.last()));
                assert(found.last().1 == names.len() - 1);
                assert forall|i: int, j: int| 0 <= i < j < found.len() implies found[i].1 < found[j].1 by {
                    assert(found[i] == before[i]);
                    if j < before.len() {
                        assert(found[j] == before[j]);
                    }
                }
                assert forall|i: int| 0 <= i < found.len() implies (#[trigger] found[i]).1 < names.len() by {
                    if i < before.len() {
                        assert(found[i] == before[i]);
                    }
                }
            }
        }
    }
}

proof fn lemma_insert_by_sequence_at(sorted: Seq<(u64, usize)>, e: (u64, usize), k: int)
    requires
        0 <= k <= sorted.len(),
        forall|j: int| k <= j < sorted.len() ==> (#[trigger] sorted[j]).0 > e.0,
        k > 0 ==> sorted[k - 1].0 <= e.0,
    ensures
        insert_by_sequence(sorted, e) == sorted.insert(k, e),
    decreases sorted.len(),
{
    if sorted.len() == 0 {
        assert(sorted.insert(k, e) =~= seq![e]);
    } else if sorted.last().0 <= e.0 {
        assert(sorted.insert(k, e) =~= sorted.push(e));
    } else {
        lemma_insert_by_sequence_at(sorted.drop_last(), e, k);
        assert(sorted.insert(k, e) =~= sorted.drop_last().insert(k, e).push(sorted.last()));
    }
}

/// Orders snapshot entries by sequence number, keeping the order of entries
/// with equal numbers.
pub fn sort_entries(entries: &Vec<(u64, usize)>) -> (r: Vec<(u64, usize)>)
    ensures
        r@ == sorted_by_sequence(entries@),
{
    let mut out: Vec<(u64, usize)> = Vec::new();
    let mut i: usize = 0;
    while i < entries.len()
        invariant
            i <= entries@.len(),
            out@ == sorted_by_sequence(entries@.subrange(0, i as int)),
        decreases entries@.len() - i,
    {
        let e = entries[i];
        let mut k: usize = out.len();
        while k > 0 && out[k - 1].0 > e.0
            invariant
                k <= out@.len(),
                forall|j: int| k <= j < out@.len() ==> (#[trigger] out@[j]).0 > e.0,
            decreases k,
        {
            k = k - 1;
        }
        proof {
            lemma_insert_by_sequence_at(out@, e, k as int);
            let next = entries@.subrange(0, i + 1);
            assert(next.drop_last() == entries@.subrange(0, i as int));
            assert(next.last() == e);
        }
        out.insert(k, e);
        i = i + 1;
    }
    assert(entries@.subrange(0, i as int) == entries@);
    out
}

/// The snapshot files in a run directory's listing (the names of its files),
/// each as its sequence number and the position of its name in the listing,
/// ordered by sequence number and then by listing order; a snapshot file whose
/// stem is not a number is an error.
pub fn snapshot_entries(names: &Vec<String>) -> (r: Result<Vec<(u64, usize)>, String>)
    ensures
        match (r, snapshot_entries_spec(names.deep_view())) {
            (Ok(v), Ok(found)) => v@ == sorted_by_sequence(found) && entries_ordered(v@)
                && v@.to_multiset() == found.to_multiset(),
            (Err(e), Err(m)) => e@ == m,
            _ => false,
        },
{
    let ghost nv = names.deep_view();
    let mut found: Vec<(u64, usize)> = Vec::new();
    let mut i: usize = 0;
    while i < names.len()
        invariant
            i <= names@.len(),
            nv == names.deep_view(),
            snapshot_entries_spec(nv.subrange(0, i as int)) == Ok::<Seq<(u64, usize)>, Seq<char>>(found@),
        decreases names@.len() - i,
    {
        let ghost next = nv.subrange(0, i + 1);
        assert(next.drop_last() == nv.subrange(0, i as int));
        assert(next.last() == names@[i as int]@);
        let name = chars_of(names[i].as_str());
        let is_parent = name.len() == 2 && name[0] == '.' && name[1] == '.';
        proof {
            if is_parent {
                reveal_strlit("..");
                assert(name@ =~= ".."@);
            } else {
                reveal_strlit("..");
                assert(name@ != ".."@) by {
                    if name@ == ".."@ {
                        assert(name@.len() == 2);
                        assert(name@[0] == '.');
                        assert(name@[1] == '.');
                    }
                }
            }
        }
        if !is_parent {
            match find_last_dot(&name) {
                Some(d) => {
                    proof {
                        lemma_last_dot_bound(name@, name@.len() as int);
                    }
                    if d > 0 {
                        let ext_len = name.len() - d - 1;
                        let is_json = ext_len == 4 && name[d + 1] == 'j' && name[d + 2] == 's'
                            && name[d + 3] == 'o' && name[d + 4] == 'n';
                        proof {
                            reveal_strlit("json");
                            let ext = name@.subrange(d + 1, name@.len() as int);
                            if is_json {
                                assert(ext =~= "json"@);
                            } else {
                                assert(ext != "json"@) by {
                                    if ext == "json"@ {
                                        assert(ext.len() == 4);
                                        assert(ext[0] == 'j');
                                        assert(ext[1] == 's');
                                        assert(ext[2] == 'o');
                                        assert(ext[3] == 'n');
                                    }
                                }
                            }
                        }
                        if is_json {
                            let stem = names[i].as_str().substring_char(0, d);
                            assert(stem@ == name@.subrange(0, d as int));
                            match parse_u64(stem) {
                                Ok(v) => {
                                    found.push((v, i));
                                },
                                Err(e) => {
                                    proof {
                                        lemma_sequences_error_sticks(nv, i + 1, nv.len() as int);
                                        assert(nv.subrange(0, nv.len() as int) == nv);
                                    }
                                    return Err(e);
                                },
                            }
                        }
                    }
                },
                None => {},
            }
        }
        i = i + 1;
    }
    assert(nv.subrange(0, i as int) == nv);
    proof {
        assert(nv.len() == names@.len());
        assert(snapshot_entries_spec(nv) == Ok::<Seq<(u64, usize)>, Seq<char>>(found@));
        lemma_entries_positions(nv, found@);
        lemma_sorted_by_sequence_keeps_order(found@);
    }
    Ok(sort_entries(&found))
}

// ---------------------------------------------------------------------------
// Laws
// ---------------------------------------------------------------------------

proof fn lemma_digits_value_step(s: Seq<char>, c: char)
    ensures
        digits_value(s.push(c)) == digits_value(s) * 10 + char_digit(c),
{
    assert(s.push(c).drop_last() == s);
}

proof fn lemma_decimal_digits(n: nat)
    ensures
        digits_value(decimal(n)) == n,
        forall|i: int| 0 <= i < decimal(n).len() ==> is_digit(#[trigger] decimal(n)[i]),
    decreases n,
{
    if n < 10 {
        lemma_char_digit(n);
        assert(decimal(n) == seq![digit_char(n)]);
        assert(seq![digit_char(n)] =~= Seq::<char>::empty().push(digit_char(n)));
        lemma_digits_value_step(Seq::<char>::empty(), digit_char(n));
    } else {
        lemma_decimal_digits(n / 10);
        lemma_char_digit(n % 10);
        assert(decimal(n) == decimal(n / 10).push(digit_char(n % 10)));
        lemma_digits_value_step(decimal(n / 10), digit_char(n % 10));
        assert(n == (n / 10) * 10 + n % 10);
        assert forall|i: int| 0 <= i < decimal(n).len() implies is_digit(#[trigger] decimal(n)[i]) by {
            if i < decimal(n / 10).len() {
                assert(decimal(n)[i] == decimal(n / 10)[i]);
            }
        }
    }
}

proof fn lemma_zeros_value(z: nat, s: Seq<char>)
    ensures
        digits_value(Seq::new(z, |i: int| '0') + s) == digits_value(s),
    decreases s.len(),
{
    if s.len() == 0 {
        lemma_zeros_only(z);
        assert(Seq::new(z, |i: int| '0') + s =~= Seq::new(z, |i: int| '0'));
    } else {
        lemma_zeros_value(z, s.drop_last());
        assert((Seq::new(z, |i: int| '0') + s).drop_last() =~= Seq::new(z, |i: int| '0') + s.drop_last());
    }
}

proof fn lemma_zeros_only(z: nat)
    ensures
        digits_value(Seq::new(z, |i: int| '0')) == 0,
    decreases z,
{
    if z > 0 {
        lemma_zeros_only((z - 1) as nat);
        assert(Seq::new(z, |i: int| '0').drop_last() =~= Seq::new((z - 1) as nat, |i: int| '0'));
    }
}

proof fn lemma_parse_prefix_digits(s: Seq<char>, n: int)
    requires
        0 <= n <= s.len(),
        forall|i: int| 0 <= i < s.len() ==> is_digit(#[trigger] s[i]),
        digits_value(s) <= u64::MAX,
    ensures
        parse_prefix(s, n) == Ok::<u64, Seq<char>>(digits_value(s.subrange(0, n)) as u64),
        digits_value(s.subrange(0, n)) <= digits_value(s),
    decreases n,
{
    lemma_prefix_value_le(s, n);
    if n > 0 {
        lemma_parse_prefix_digits(s, n - 1);
        assert(s.subrange(0, n).drop_last() == s.subrange(0, n - 1));
        assert(s.subrange(0, n).last() == s[n - 1]);
    }
}

proof fn lemma_prefix_value_le(s: Seq<char>, n: int)
    requires
        0 <= n <= s.len(),
    ensures
        digits_value(s.subrange(0, n)) <= digits_value(s),
    decreases s.len() - n,
{
    if n < s.len() {
        lemma_prefix_value_le(s, n + 1);
        assert(s.subrange(0, n + 1).drop_last() == s.subrange(0, n));
    } else {
        assert(s.subrange(0, n) == s);
    }
}

/// A snapshot's file name gives back its sequence number: the stem of
/// `snapshot_file_name(sequence)` is `json`-extended and parses as `sequence`.
pub proof fn lemma_snapshot_name_round_trip(sequence: u64)
    ensures
        split_extension(snapshot_file_name(sequence)) == Some(
            (zero_padded(sequence as nat, SNAPSHOT_SEQUENCE_WIDTH as nat), ".json"@.drop_first()),
        ),
        parse_u64_spec(zero_padded(sequence as nat, SNAPSHOT_SEQUENCE_WIDTH as nat)) == Ok::<u64, Seq<char>>(sequence),
{
    let stem = zero_padded(sequence as nat, SNAPSHOT_SEQUENCE_WIDTH as nat);
    let d = decimal(sequence as nat);
    lemma_decimal_digits(sequence as nat);
    lemma_decimal_len(sequence as nat);
    let z: nat = if d.len() >= 20 { 0 } else { (20 - d.len()) as nat };
    assert(stem =~= Seq::new(z, |i: int| '0') + d);
    lemma_zeros_value(z, d);
    assert forall|i: int| 0 <= i < stem.len() implies is_digit(#[trigger] stem[i]) by {
        if i >= z {
            assert(stem[i] == d[i - z]);
        }
    }
    lemma_parse_prefix_digits(stem, stem.len() as int);
    assert(stem.subrange(0, stem.len() as int) == stem);
    reveal_strlit(".json");
    let name = snapshot_file_name(sequence);
    assert(name == stem + ".json"@);
    assert(stem.len() >= 1);
    assert(stem[0] != '+');
    assert(last_dot(name, name.len() as int) == Some(stem.len() as int)) by {
        let l = name.len() as int;
        assert(name[l - 5] == '.');
        assert(name[l - 1] == 'n');
        assert(name[l - 2] == 'o');
        assert(name[l - 3] == 's');
        assert(name[l - 4] == 'j');
        assert(last_dot(name, l - 4) == Some(l - 5));
        assert(last_dot(name, l - 3) == Some(l - 5));
        assert(last_dot(name, l - 2) == Some(l - 5));
        assert(last_dot(name, l - 1) == Some(l - 5));
    }
    assert(name != ".."@) by {
        reveal_strlit("..");
        if name == ".."@ {
            assert(name.len() == 2);
        }
    }
    assert(name.subrange(0, stem.len() as int) =~= stem);
    assert(name.subrange(stem.len() as int + 1, name.len() as int) =~= ".json"@.drop_first());
}

} // verus!
