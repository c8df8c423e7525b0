use vstd::prelude::*;
use vstd::string::{StrSliceExecFns, StringExecFns};
use crate::appender::{FastLogRecord, RecordView};
use crate::date::{date_file_stamp, spec_date, LogDate};
use crate::fastlog::seq_views;
use crate::plugin::file_name::{
    seq_le, seq_lt, spec_ends_with, spec_starts_with, str_ends_with, str_eq, str_lt,
    str_starts_with,
};

verus! {

// ---------------------------------------------------------------------------
// Sizes and rolling policy.

/// A size expressed in bytes, kibibytes, mebibytes or gibibytes.
#[derive(Clone, Copy, Debug)]
pub enum LogSize {
    B(u64),
    KB(u64),
    MB(u64),
    GB(u64),
}

pub open spec fn spec_log_size(s: LogSize) -> int {
    match s {
        LogSize::B(n) => n as int,
        LogSize::KB(n) => n as int * 1024,
        LogSize::MB(n) => n as int * 1048576,
        LogSize::GB(n) => n as int * 1073741824,
    }
}

/// `x` clamped to the representable range.
pub open spec fn sat64(x: int) -> int {
    if x > u64::MAX {
        u64::MAX as int
    } else {
        x
    }
}

fn mul_clamped(a: u64, b: u64) -> (r: u64)
    requires
        b > 0,
    ensures
        r as int == sat64(a as int * b as int),
{
    if a > u64::MAX / b {
        proof {
            assert(a as int * b as int > u64::MAX) by (nonlinear_arith)
                requires
                    a as int > u64::MAX as int / b as int,
                    b > 0,
            ;
        }
        u64::MAX
    } else {
        proof {
            assert(a as int * b as int <= u64::MAX) by (nonlinear_arith)
                requires
                    a as int <= u64::MAX as int / b as int,
                    b > 0,
            ;
        }
        a * b
    }
}

impl LogSize {
    pub fn get_len(&self) -> (r: u64)
        ensures
            r as int == sat64(spec_log_size(*self)),
    {
        match self {
            LogSize::B(n) => *n,
            LogSize::KB(n) => mul_clamped(*n, 1024),
            LogSize::MB(n) => mul_clamped(*n, 1048576),
            LogSize::GB(n) => mul_clamped(*n, 1073741824),
        }
    }
}

/// When the active file must be rotated: when its size reaches a bound, or
/// when it has been open at least a duration (microseconds).
#[derive(Clone, Copy, Debug)]
pub enum RollingType {
    BySize(LogSize),
    ByDuration(u64),
}

/// Whether an active file of `size` bytes opened at `open_time` must rotate
/// at instant `now`.
pub open spec fn spec_should_roll(rt: RollingType, size: int, open_time: u64, now: u64) -> bool {
    match rt {
        RollingType::BySize(ls) => size >= sat64(spec_log_size(ls)),
        RollingType::ByDuration(d) => now >= open_time + d,
    }
}

/// The rolling policy carried by a file-split appender.
#[derive(Clone, Copy, Debug)]
pub struct Rolling {
    pub rolling_type: RollingType,
}

impl Rolling {
    pub fn new(rolling_type: RollingType) -> (r: Rolling)
        ensures
            r.rolling_type == rolling_type,
    {
        Rolling { rolling_type }
    }

    pub fn should_roll(&self, size: u64, open_time: u64, now: u64) -> (r: bool)
        ensures
            r == spec_should_roll(self.rolling_type, size as int, open_time, now),
    {
        match self.rolling_type {
            RollingType::BySize(ls) => size >= ls.get_len(),
            RollingType::ByDuration(d) => now >= open_time && now - open_time >= d,
        }
    }
}

// ---------------------------------------------------------------------------
// Byte lengths of text.

/// The number of bytes the text occupies in a file: the length of its UTF-8
/// encoding.
pub open spec fn utf8_len(s: Seq<char>) -> int {
    vstd::utf8::encode_utf8(s).len() as int
}

proof fn lemma_encode_utf8_concat(a: Seq<char>, b: Seq<char>)
    ensures
        vstd::utf8::encode_utf8(a + b) == vstd::utf8::encode_utf8(a) + vstd::utf8::encode_utf8(b),
    decreases a.len(),
{
    if a.len() == 0 {
        assert(a + b =~= b);
        assert(vstd::utf8::encode_utf8(a) + vstd::utf8::encode_utf8(b) =~= vstd::utf8::encode_utf8(
            b,
        ));
    } else {
        assert((a + b)[0] == a[0]);
        assert((a + b).drop_first() =~= a.drop_first() + b);
        lemma_encode_utf8_concat(a.drop_first(), b);
        assert(vstd::utf8::encode_utf8(a + b) =~= vstd::utf8::encode_utf8(a)
            + vstd::utf8::encode_utf8(b));
    }
}

fn char_utf8_width(c: char) -> (r: u64)
    ensures
        r as int == vstd::utf8::encode_scalar(c as u32).len(),
{
    proof {
        vstd::utf8::char_is_scalar(c);
    }
    let u = c as u32;
    if u <= 0x7F {
        1
    } else if u <= 0x7FF {
        2
    } else if u <= 0xFFFF {
        3
    } else {
        4
    }
}

/// The byte length of a string's UTF-8 encoding, clamped to the widest
/// representable count.
pub fn str_utf8_len(s: &str) -> (r: u64)
    ensures
        r as int == sat64(utf8_len(s@)),
{
    let n = s.unicode_len();
    let mut acc: u64 = 0;
    let mut k: usize = 0;
    proof {
        assert(s@.take(0) =~= Seq::<char>::empty());
    }
    while k < n
        invariant
            k <= n,
            n == s@.len(),
            acc as int == sat64(utf8_len(s@.take(k as int))),
        decreases n - k,
    {
        let ghost i = k as int;
        let c = s.get_char(k);
        let w = char_utf8_width(c);
        acc = acc.saturating_add(w);
        k = k + 1;
        proof {
            assert(s@.take(i + 1) =~= s@.take(i) + seq![c]);
            lemma_encode_utf8_concat(s@.take(i), seq![c]);
            assert(seq![c][0] == c);
            assert(seq![c].drop_first() =~= Seq::<char>::empty());
            assert(vstd::utf8::encode_utf8(seq![c].drop_first()) =~= Seq::<u8>::empty());
            assert(vstd::utf8::encode_utf8(seq![c]) =~= vstd::utf8::encode_scalar(c as u32));
        }
    }
    proof {
        assert(s@.take(n as int) =~= s@);
    }
    acc
}

// ---------------------------------------------------------------------------
// Rotated file names.

/// The temp file's name without its `.log` suffix.
pub open spec fn stem_of(temp: Seq<char>) -> Seq<char> {
    if spec_ends_with(temp, ".log"@) {
        temp.take(temp.len() - 4)
    } else {
        temp
    }
}

pub fn log_stem(temp_name: &str) -> (r: String)
    ensures
        r@ == stem_of(temp_name@),
{
    proof {
        reveal_strlit(".log");
    }
    let n = temp_name.unicode_len();
    if str_ends_with(temp_name, ".log") {
        String::from_str(temp_name.substring_char(0, n - 4))
    } else {
        String::from_str(temp_name)
    }
}

/// The name a rotation at instant `t` gives the closed file: the temp stem,
/// the timestamp, and the `.log` suffix back.
pub open spec fn spec_rotated_name(temp: Seq<char>, t: u64) -> Seq<char> {
    stem_of(temp) + date_file_stamp(spec_date(t)) + ".log"@
}

pub fn rotated_name(temp_name: &str, t: u64) -> (r: String)
    ensures
        r@ == spec_rotated_name(temp_name@, t),
{
    let mut s = log_stem(temp_name);
    let d = LogDate::from_micros(t);
    let stamp = d.file_stamp();
    s.append(stamp.as_str());
    s.append(".log");
    proof {
        assert(s@ =~= spec_rotated_name(temp_name@, t));
    }
    s
}

/// Whether `name` is a rotated log file belonging to the temp file `temp`:
/// it shares the stem, ends in `.log`, and is not the active file itself.
pub open spec fn is_rotated(name: Seq<char>, temp: Seq<char>) -> bool {
    &&& spec_starts_with(name, stem_of(temp))
    &&& spec_ends_with(name, ".log"@)
    &&& name != temp
}

fn is_rotated_x(name: &str, temp_name: &str) -> (r: bool)
    ensures
        r == is_rotated(name@, temp_name@),
{
    proof {
        reveal_strlit(".log");
    }
    let stem = log_stem(temp_name);
    str_starts_with(name, stem.as_str()) && str_ends_with(name, ".log") && !str_eq(name, temp_name)
}

// ---------------------------------------------------------------------------
// Retention.

/// Which rotated files to keep after a pack event: all of them, the `k`
/// most recent, or those younger than a duration (microseconds).
#[derive(Clone, Copy, Debug)]
pub enum KeepType {
    All,
    KeepNum(usize),
    KeepTime(u64),
}

pub open spec fn name_views(s: Seq<String>) -> Seq<Seq<char>> {
    s.map_values(|x: String| x@)
}

/// How many of the names are rotated logs of `temp`.
pub open spec fn count_cand(v: Seq<Seq<char>>, temp: Seq<char>) -> int
    decreases v.len(),
{
    if v.len() == 0 {
        0
    } else {
        count_cand(v.drop_last(), temp) + if is_rotated(v.last(), temp) {
            1int
        } else {
            0
        }
    }
}

/// How many rotated logs the deletion flags leave in place.
pub open spec fn kept_count(v: Seq<Seq<char>>, del: Seq<bool>, temp: Seq<char>) -> int
    decreases v.len(),
{
    if v.len() == 0 {
        0
    } else {
        kept_count(v.drop_last(), del.drop_last(), temp) + if is_rotated(v.last(), temp)
            && !del.last() {
            1int
        } else {
            0
        }
    }
}

proof fn lemma_kept_le_cand(v: Seq<Seq<char>>, del: Seq<bool>, temp: Seq<char>)
    requires
        del.len() == v.len(),
    ensures
        0 <= kept_count(v, del, temp) <= count_cand(v, temp),
    decreases v.len(),
{
    if v.len() > 0 {
        lemma_kept_le_cand(v.drop_last(), del.drop_last(), temp)
    }
}

proof fn lemma_kept_all_marked_candidates(v: Seq<Seq<char>>, del: Seq<bool>, temp: Seq<char>)
    requires
        del.len() == v.len(),
        forall|i: int| 0 <= i < v.len() && is_rotated(#[trigger] v[i], temp) ==> del[i],
    ensures
        kept_count(v, del, temp) == 0,
    decreases v.len(),
{
    if v.len() > 0 {
        assert(forall|i: int|
            0 <= i < v.len() - 1 && is_rotated(#[trigger] v.drop_last()[i], temp)
                ==> del.drop_last()[i]);
        lemma_kept_all_marked_candidates(v.drop_last(), del.drop_last(), temp);
    }
}

proof fn lemma_kept_none_marked(v: Seq<Seq<char>>, del: Seq<bool>, temp: Seq<char>)
    requires
        del.len() == v.len(),
        forall|i: int| 0 <= i < del.len() ==> !(#[trigger] del[i]),
    ensures
        kept_count(v, del, temp) == count_cand(v, temp),
    decreases v.len(),
{
    if v.len() > 0 {
        assert(forall|i: int| 0 <= i < del.len() - 1 ==> !(#[trigger] del.drop_last()[i]));
        lemma_kept_none_marked(v.drop_last(), del.drop_last(), temp);
    }
}

proof fn lemma_kept_unmark(v: Seq<Seq<char>>, del: Seq<bool>, temp: Seq<char>, j: int)
    requires
        del.len() == v.len(),
        0 <= j < del.len(),
        del[j],
        is_rotated(v[j], temp),
    ensures
        kept_count(v, del.update(j, false), temp) == kept_count(v, del, temp) + 1,
    decreases v.len(),
{
    let d2 = del.update(j, false);
    if j == v.len() - 1 {
        assert(d2.drop_last() =~= del.drop_last());
        assert(d2.last() == false);
    } else {
        assert(d2.drop_last() =~= del.drop_last().update(j, false));
        assert(d2.last() == del.last());
        lemma_kept_unmark(v.drop_last(), del.drop_last(), temp, j);
    }
}

/// The number of rotated logs of `temp_name` among the directory entries:
/// the count of items retention considered, which `do_keep`'s deletion flags
/// are about.
pub fn rotated_count(names: &Vec<String>, temp_name: &str) -> (r: usize)
    ensures
        r as int == count_cand(name_views(names@), temp_name@),
{
    let ghost v = name_views(names@);
    let n = names.len();
    let mut c: usize = 0;
    let mut i: usize = 0;
    proof {
        assert(v.take(0) =~= Seq::<Seq<char>>::empty());
    }
    while i < n
        invariant
            i <= n,
            n == names@.len(),
            v == name_views(names@),
            c <= i,
            c as int == count_cand(v.take(i as int), temp_name@),
        decreases n - i,
    {
        let ghost k = i as int;
        if is_rotated_x(names[i].as_str(), temp_name) {
            c = c + 1;
        }
        i = i + 1;
        proof {
            assert(v.take(k + 1).drop_last() =~= v.take(k));
            assert(v.take(k + 1).last() == v[k]);
        }
    }
    proof {
        assert(v.take(n as int) =~= v);
    }
    c
}

impl KeepType {
    /// Decide which directory entries to delete. `names` are the entries of
    /// the log directory, `temp_name` the active file's name, `now` the
    /// current instant in microseconds. The result holds one flag per entry;
    /// a set flag marks the entry for deletion. Only rotated logs of the
    /// temp file are ever marked — the active file never is — and under
    /// `KeepNum(k)` exactly the `k` lexicographically greatest (most recent)
    /// rotated logs survive, or all of them when there are fewer than `k`.
    pub fn do_keep(&self, names: &Vec<String>, temp_name: &str, now: u64) -> (del: Vec<bool>)
        ensures
            del@.len() == names@.len(),
            forall|i: int|
                0 <= i < del@.len() && #[trigger] del@[i] ==> is_rotated(
                    name_views(names@)[i],
                    temp_name@,
                ),
            *self is All ==> forall|i: int| 0 <= i < del@.len() ==> !(#[trigger] del@[i]),
            *self matches KeepType::KeepNum(k) ==> {
                &&& kept_count(name_views(names@), del@, temp_name@) == if k as int <= count_cand(
                    name_views(names@),
                    temp_name@,
                ) {
                    k as int
                } else {
                    count_cand(name_views(names@), temp_name@)
                }
                &&& forall|i: int, j: int|
                    0 <= i < del@.len() && 0 <= j < del@.len() && #[trigger] del@[i] && is_rotated(
                        #[trigger] name_views(names@)[j],
                        temp_name@,
                    ) && !del@[j] ==> seq_le(name_views(names@)[i], name_views(names@)[j])
            },
            *self matches KeepType::KeepTime(d) ==> forall|i: int|
                0 <= i < del@.len() ==> #[trigger] del@[i] == (is_rotated(
                    #[trigger] name_views(names@)[i],
                    temp_name@,
                ) && seq_lt(
                    name_views(names@)[i],
                    spec_rotated_name(temp_name@, now.saturating_sub(d)),
                )),
    {
        let ghost v = name_views(names@);
        let n = names.len();
        match self {
            KeepType::All => {
                let mut del: Vec<bool> = Vec::new();
                let mut i: usize = 0;
                while i < n
                    invariant
                        i <= n,
                        del@.len() == i,
                        forall|j: int| 0 <= j < i as int ==> !(#[trigger] del@[j]),
                    decreases n - i,
                {
                    del.push(false);
                    i = i + 1;
                }
                del
            },
            KeepType::KeepTime(d) => {
                let cutoff = rotated_name(temp_name, now.saturating_sub(*d));
                let mut del: Vec<bool> = Vec::new();
                let mut i: usize = 0;
                while i < n
                    invariant
                        i <= n,
                        n == names@.len(),
                        del@.len() == i,
                        v == name_views(names@),
                        cutoff@ == spec_rotated_name(temp_name@, now.saturating_sub(*d)),
                        forall|j: int|
                            0 <= j < i as int ==> #[trigger] del@[j] == (is_rotated(v[j], temp_name@)
                                && seq_lt(v[j], cutoff@)),
                    decreases n - i,
                {
                    let c = is_rotated_x(names[i].as_str(), temp_name) && str_lt(
                        names[i].as_str(),
                        cutoff.as_str(),
                    );
                    del.push(c);
                    i = i + 1;
                }
                del
            },
            KeepType::KeepNum(keep_n) => {
                let mut del: Vec<bool> = Vec::new();
                let mut i: usize = 0;
                while i < n
                    invariant
                        i <= n,
                        n == names@.len(),
                        del@.len() == i,
                        v == name_views(names@),
                        forall|j: int|
                            0 <= j < i as int ==> #[trigger] del@[j] == is_rotated(
                                v[j],
                                temp_name@,
                            ),
                    decreases n - i,
                {
                    del.push(is_rotated_x(names[i].as_str(), temp_name));
                    i = i + 1;
                }
                proof {
                    lemma_kept_all_marked_candidates(v, del@, temp_name@);
                }
                let k = *keep_n;
                let mut kept: usize = 0;
                loop
                    invariant
                        n == names@.len(),
                        v == name_views(names@),
                        del@.len() == n,
                        kept <= k,
                        kept as int == kept_count(v, del@, temp_name@),
                        forall|i2: int|
                            0 <= i2 < n as int && #[trigger] del@[i2] ==> is_rotated(
                                v[i2],
                                temp_name@,
                            ),
                        forall|i2: int, j2: int|
                            0 <= i2 < n as int && 0 <= j2 < n as int && #[trigger] del@[i2]
                                && is_rotated(#[trigger] v[j2], temp_name@) && !del@[j2] ==> seq_le(
                                v[i2],
                                v[j2],
                            ),
                    ensures
                        del@.len() == n,
                        forall|i2: int|
                            0 <= i2 < n as int && #[trigger] del@[i2] ==> is_rotated(
                                v[i2],
                                temp_name@,
                            ),
                        forall|i2: int, j2: int|
                            0 <= i2 < n as int && 0 <= j2 < n as int && #[trigger] del@[i2]
                                && is_rotated(#[trigger] v[j2], temp_name@) && !del@[j2] ==> seq_le(
                                v[i2],
                                v[j2],
                            ),
                        kept_count(v, del@, temp_name@) == if k as int <= count_cand(
                            v,
                            temp_name@,
                        ) {
                            k as int
                        } else {
                            count_cand(v, temp_name@)
                        },
                    decreases k - kept,
                {
                    if kept >= k {
                        proof {
                            lemma_kept_le_cand(v, del@, temp_name@);
                        }
                        break;
                    }
                    let mut best: usize = 0;
                    let mut found = false;
                    let mut i2: usize = 0;
                    while i2 < n
                        invariant
                            i2 <= n,
                            n == names@.len(),
                            n == del@.len(),
                            v == name_views(names@),
                            found ==> (best < n && del@[best as int]),
                            found ==> forall|j2: int|
                                0 <= j2 < i2 as int && #[trigger] del@[j2] ==> seq_le(
                                    v[j2],
                                    v[best as int],
                                ),
                            !found ==> forall|j2: int|
                                0 <= j2 < i2 as int ==> !(#[trigger] del@[j2]),
                        decreases n - i2,
                    {
                        if del[i2] {
                            if !found {
                                best = i2;
                                found = true;
                            } else if str_lt(names[best].as_str(), names[i2].as_str()) {
                                let ghost ob = best as int;
                                best = i2;
                                proof {
                                    assert forall|j2: int|
                                        0 <= j2 < i2 as int && #[trigger] del@[j2] implies seq_le(
                                        v[j2],
                                        v[i2 as int],
                                    ) by {
                                        if v[j2] == v[ob] {
                                        } else {
                                            crate::plugin::file_name::lemma_seq_lt_trans(
                                                v[j2],
                                                v[ob],
                                                v[i2 as int],
                                            );
                                        }
                                    }
                                }
                            } else {
                                proof {
                                    crate::plugin::file_name::lemma_seq_lt_total(
                                        v[i2 as int],
                                        v[best as int],
                                    );
                                }
                            }
                        }
                        i2 = i2 + 1;
                    }
                    if !found {
                        proof {
                            lemma_kept_none_marked(v, del@, temp_name@);
                        }
                        break;
                    }
                    proof {
                        lemma_kept_unmark(v, del@, temp_name@, best as int);
                    }
                    let ghost dpre = del@;
                    let _ = del.remove(best);
                    del.insert(best, false);
                    proof {
                        assert(del@ =~= dpre.update(best as int, false));
                    }
                    kept = kept + 1;
                }
                del
            },
        }
    }
}

// ---------------------------------------------------------------------------
// The rolling-file appender.

/// One file-system action decided by the appender; the process around the
/// engine performs it. `Write` appends text to the active `temp.log`;
/// `Rotate` closes the active file, renames it to the given name and opens a
/// fresh one; `Pack` enqueues the named rotated file for the background
/// packer, after which retention runs.
pub enum FileOp {
    Write(String),
    Rotate(String),
    Pack(String),
}

/// The rolling-file sink's decision state: the directory, the active file's
/// name, its size in bytes, and when it was opened (microseconds).
pub struct FileSplitAppender {
    pub dir_path: String,
    pub temp_name: String,
    pub temp_size: u64,
    pub open_time: u64,
    pub rolling: Rolling,
    pub keep: KeepType,
}

/// The text a batch appends to the active file: every record's formatted
/// line, in order.
pub open spec fn batch_text(s: Seq<RecordView>) -> Seq<char>
    decreases s.len(),
{
    if s.len() == 0 {
        Seq::empty()
    } else {
        s[0].formated + batch_text(s.drop_first())
    }
}

proof fn lemma_batch_text_concat(a: Seq<RecordView>, b: Seq<RecordView>)
    ensures
        batch_text(a + b) == batch_text(a) + batch_text(b),
    decreases a.len(),
{
    if a.len() == 0 {
        assert(a + b =~= b);
        assert(batch_text(a) + batch_text(b) =~= batch_text(b));
    } else {
        assert((a + b)[0] == a[0]);
        assert((a + b).drop_first() =~= a.drop_first() + b);
        lemma_batch_text_concat(a.drop_first(), b);
        assert(batch_text(a + b) =~= batch_text(a) + batch_text(b));
    }
}

/// A size-rolled appender never holds a full file between batches: its size
/// is below the bound (or zero right after a rotation).
pub open spec fn size_wf(a: FileSplitAppender) -> bool {
    match a.rolling.rolling_type {
        RollingType::BySize(ls) => (a.temp_size as int) < sat64(spec_log_size(ls))
            || a.temp_size == 0,
        _ => true,
    }
}

/// Rotation trigger bound: starting from a well-formed size, whatever batch
/// arrives, the file handed to rotation holds at most the size bound plus
/// that one batch.
pub proof fn lemma_rotation_trigger(a: FileSplitAppender, total: int, ls: LogSize)
    requires
        size_wf(a),
        a.rolling.rolling_type == RollingType::BySize(ls),
        total >= 0,
    ensures
        sat64(a.temp_size as int + total) <= sat64(spec_log_size(ls)) + total,
{
}

impl FileSplitAppender {
    /// A fresh appender over an empty active file opened at `now`.
    pub fn new(dir_path: String, rolling: Rolling, keep: KeepType, now: u64) -> (r:
        FileSplitAppender)
        ensures
            r.dir_path == dir_path,
            r.temp_name@ == "temp.log"@,
            r.temp_size == 0,
            r.open_time == now,
            r.rolling == rolling,
            r.keep == keep,
            size_wf(r),
    {
        FileSplitAppender {
            dir_path,
            temp_name: String::from_str("temp.log"),
            temp_size: 0,
            open_time: now,
            rolling,
            keep,
        }
    }

    pub fn temp_name(&self) -> (r: &String)
        ensures
            r == self.temp_name,
    {
        &self.temp_name
    }

    /// Process one batch: append every record's formatted text to the active
    /// file, advance the size, then test the rolling trigger once. On a
    /// trigger, the active file is renamed to its timestamped name, handed to
    /// the packer, and a fresh one is opened. The returned actions carry
    /// exactly that: the write, and on rotation the rename target and the
    /// pack job.
    pub fn do_logs(&mut self, records: &Vec<FastLogRecord>, now: u64) -> (ops: Vec<FileOp>)
        ensures
            final(self).dir_path == old(self).dir_path,
            final(self).temp_name == old(self).temp_name,
            final(self).rolling == old(self).rolling,
            final(self).keep == old(self).keep,
            ({
                let text = batch_text(seq_views(records@));
                let grown = sat64(old(self).temp_size as int + utf8_len(text));
                let rolled = spec_should_roll(
                    old(self).rolling.rolling_type,
                    grown,
                    old(self).open_time,
                    now,
                );
                &&& ops@.len() == (if rolled {
                    3int
                } else {
                    1int
                })
                &&& (ops@[0] matches FileOp::Write(t) && t@ == text)
                &&& rolled ==> {
                    &&& (ops@[1] matches FileOp::Rotate(tg) && tg@ == spec_rotated_name(
                        old(self).temp_name@,
                        now,
                    ))
                    &&& (ops@[2] matches FileOp::Pack(p) && p@ == spec_rotated_name(
                        old(self).temp_name@,
                        now,
                    ))
                    &&& final(self).temp_size == 0
                    &&& final(self).open_time == now
                }
                &&& !rolled ==> {
                    &&& final(self).temp_size as int == grown
                    &&& final(self).open_time == old(self).open_time
                }
            }),
            size_wf(*old(self)) ==> size_wf(*final(self)),
    {
        let ghost views = seq_views(records@);
        let mut text = String::new();
        let n = records.len();
        let mut m: usize = 0;
        while m < n
            invariant
                m <= n,
                n == records@.len(),
                views == seq_views(records@),
                text@ == batch_text(views.take(m as int)),
            decreases n - m,
        {
            let ghost k = m as int;
            text.append(records[m].formated.as_str());
            m = m + 1;
            proof {
                assert(views.take(k + 1) =~= views.take(k) + seq![views[k]]);
                lemma_batch_text_concat(views.take(k), seq![views[k]]);
                assert(seq![views[k]].drop_first() =~= Seq::<RecordView>::empty());
                assert(seq![views[k]][0] == views[k]);
                assert(batch_text(seq![views[k]].drop_first()) =~= Seq::<char>::empty());
                assert(batch_text(seq![views[k]]) =~= views[k].formated);
                assert(views[k] == records@[k]@);
                assert(text@ =~= batch_text(views.take(k + 1)));
            }
        }
        proof {
            assert(views.take(views.len() as int) =~= views);
        }
        let total = str_utf8_len(text.as_str());
        let grown = self.temp_size.saturating_add(total);
        let mut ops: Vec<FileOp> = Vec::new();
        ops.push(FileOp::Write(text));
        if self.rolling.should_roll(grown, self.open_time, now) {
            let target = rotated_name(self.temp_name.as_str(), now);
            let pack_target = rotated_name(self.temp_name.as_str(), now);
            ops.push(FileOp::Rotate(target));
            ops.push(FileOp::Pack(pack_target));
            self.temp_size = 0;
            self.open_time = now;
        } else {
            self.temp_size = grown;
        }
        ops
    }
}

} // verus!
