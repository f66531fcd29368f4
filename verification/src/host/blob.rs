//! The byte strings by which a shell hands over the programs that it starts.

use vstd::prelude::*;
use vstd::utf8::{decode_utf8, encode_utf8, encode_utf8_decode_utf8, encode_utf8_valid_utf8, valid_utf8};
use crate::bytes::{contents, get_u32, le32, le32_decodes, u32_at};
use crate::suspend::Stage;
use crate::text::utf8;
use crate::wt::mem::read;

verus! {

/// A list of arguments in a byte string: a count, a table of places and lengths, and the
/// arguments wherever the table says. Nothing where the table or an argument does not lie
/// in the byte string.
pub open spec fn argv_of(b: Seq<u8>) -> Option<Seq<Seq<u8>>> {
    if b.len() < 4 || b.len() < 4 + 8 * u32_at(b, 0) {
        None
    } else if exists|i: int| 0 <= i < u32_at(b, 0) && !#[trigger] arg_fits(b, i) {
        None
    } else {
        Some(Seq::new(u32_at(b, 0) as nat, |i: int| arg_at(b, i)))
    }
}

/// Whether argument `i` lies in the byte string.
pub open spec fn arg_fits(b: Seq<u8>, i: int) -> bool {
    u32_at(b, 4 + 8 * i) + u32_at(b, 8 + 8 * i) <= b.len()
}

/// Argument `i`.
pub open spec fn arg_at(b: Seq<u8>, i: int) -> Seq<u8> {
    b.subrange(u32_at(b, 4 + 8 * i), u32_at(b, 4 + 8 * i) + u32_at(b, 8 + 8 * i))
}

/// Reads a list of arguments.
pub fn decode_argv(blob: &[u8]) -> (r: Option<Vec<Vec<u8>>>)
    ensures
        match r {
            Some(v) => argv_of(blob@) == Some(contents(v@)),
            None => argv_of(blob@) is None,
        },
{
    if blob.len() < 4 {
        return None;
    }
    let count: u32 = get_u32(blob, 0);
    if (blob.len() as u64) < 4 + 8 * count as u64 {
        return None;
    }
    let mut out: Vec<Vec<u8>> = Vec::new();
    let mut i: u32 = 0;
    while i < count
        invariant
            i <= count,
            blob@.len() >= 4,
            count == u32_at(blob@, 0),
            4 + 8 * count <= blob@.len(),
            out@.len() == i,
            forall|k: int| 0 <= k < i ==> #[trigger] arg_fits(blob@, k),
            forall|k: int| 0 <= k < i ==> (#[trigger] out@[k])@ == arg_at(blob@, k),
        decreases count - i,
    {
        assert(blob.len() == blob@.len());
        let at: usize = 4 + 8 * i as usize;
        match read(blob, get_u32(blob, at), get_u32(blob, at + 4)) {
            None => {
                assert(!arg_fits(blob@, i as int));
                return None;
            },
            Some(a) => {
                assert(at == 4 + 8 * i && at + 4 == 8 + 8 * i);
                assert(arg_fits(blob@, i as int) && a@ == arg_at(blob@, i as int));
                out.push(a);
            },
        }
        i += 1;
    }
    proof {
        assert(contents(out@) =~= Seq::new(count as nat, |i: int| arg_at(blob@, i)));
    }
    Some(out)
}

/// The bytes behind a length at `o`, and the place behind them.
pub open spec fn field(b: Seq<u8>, o: int) -> Option<(Seq<u8>, int)> {
    if o + 4 <= b.len() && o + 4 + u32_at(b, o) <= b.len() {
        Some((b.subrange(o + 4, o + 4 + u32_at(b, o)), o + 4 + u32_at(b, o)))
    } else {
        None
    }
}

/// `n` byte strings in a row from `o` on, and the place behind them.
pub open spec fn fields(b: Seq<u8>, o: int, n: int) -> Option<(Seq<Seq<u8>>, int)>
    decreases n,
{
    if n <= 0 {
        Some((Seq::empty(), o))
    } else {
        match fields(b, o, n - 1) {
            None => None,
            Some((s, p)) => match field(b, p) {
                None => None,
                Some((x, q)) => Some((s.push(x), q)),
            },
        }
    }
}

/// A stage of a pipeline, as text and bytes.
pub struct StageView {
    pub path: Seq<char>,
    pub argv: Seq<Seq<u8>>,
}

impl View for Stage {
    type V = StageView;

    open spec fn view(&self) -> StageView {
        StageView { path: self.path@, argv: contents(self.argv@) }
    }
}

/// The views of a list.
pub open spec fn stage_views(s: Seq<Stage>) -> Seq<StageView> {
    Seq::new(s.len(), |i: int| s[i]@)
}

/// The stage at `o`, and the place behind it: a path, a count, and so many arguments.
pub open spec fn stage(b: Seq<u8>, o: int) -> Option<(StageView, int)> {
    match field(b, o) {
        Some((path, p)) if valid_utf8(path) && p + 4 <= b.len() => match fields(b, p + 4, u32_at(b, p)) {
            Some((argv, q)) => Some((StageView { path: decode_utf8(path), argv }, q)),
            None => None,
        },
        _ => None,
    }
}

/// `n` stages in a row from `o` on, and the place behind them.
pub open spec fn stages(b: Seq<u8>, o: int, n: int) -> Option<(Seq<StageView>, int)>
    decreases n,
{
    if n <= 0 {
        Some((Seq::empty(), o))
    } else {
        match stages(b, o, n - 1) {
            None => None,
            Some((s, p)) => match stage(b, p) {
                None => None,
                Some((x, q)) => Some((s.push(x), q)),
            },
        }
    }
}

/// The pipeline in a byte string: a count, and so many stages. What follows is ignored.
pub open spec fn pipeline_of(b: Seq<u8>) -> Option<Seq<StageView>> {
    if b.len() < 4 {
        None
    } else {
        match stages(b, 4, u32_at(b, 0)) {
            Some((s, _)) => Some(s),
            None => None,
        }
    }
}

proof fn lemma_fields_over(b: Seq<u8>, o: int, k: int, n: int)
    requires
        k <= n,
        fields(b, o, k) is None,
    ensures
        fields(b, o, n) is None,
    decreases n - k,
{
    if k < n {
        lemma_fields_over(b, o, k, n - 1);
    }
}

proof fn lemma_stages_over(b: Seq<u8>, o: int, k: int, n: int)
    requires
        k <= n,
        stages(b, o, k) is None,
    ensures
        stages(b, o, n) is None,
    decreases n - k,
{
    if k < n {
        lemma_stages_over(b, o, k, n - 1);
    }
}

fn read_field(blob: &[u8], o: usize) -> (r: Option<(Vec<u8>, usize)>)
    requires
        o <= blob@.len(),
    ensures
        match r {
            Some(f) => field(blob@, o as int) == Some((f.0@, f.1 as int)) && f.1 <= blob@.len(),
            None => field(blob@, o as int) is None,
        },
{
    assert(blob.len() == blob@.len());
    if blob.len() - o < 4 {
        return None;
    }
    let n: u32 = get_u32(blob, o);
    if ((blob.len() - o - 4) as u64) < n as u64 {
        return None;
    }
    let mut out: Vec<u8> = Vec::new();
    let from: usize = o + 4;
    let mut i: usize = 0;
    while i < n as usize
        invariant
            i <= n,
            from == o + 4,
            from + n <= blob@.len(),
            out@ == blob@.subrange(from as int, from + i),
        decreases n - i,
    {
        assert(blob.len() == blob@.len());
        out.push(blob[from + i]);
        assert(blob@.subrange(from as int, from + i + 1) =~= blob@.subrange(from as int, from + i).push(
            blob@[from + i],
        ));
        i += 1;
    }
    Some((out, from + n as usize))
}

fn read_fields(blob: &[u8], o: usize, n: u32) -> (r: Option<(Vec<Vec<u8>>, usize)>)
    requires
        o <= blob@.len(),
    ensures
        match r {
            Some(f) => fields(blob@, o as int, n as int) == Some((contents(f.0@), f.1 as int)) && f.1 <= blob@.len(),
            None => fields(blob@, o as int, n as int) is None,
        },
{
    let mut out: Vec<Vec<u8>> = Vec::new();
    let mut p: usize = o;
    let mut i: u32 = 0;
    assert(contents(out@) =~= Seq::empty());
    while i < n
        invariant
            i <= n,
            p <= blob@.len(),
            fields(blob@, o as int, i as int) == Some((contents(out@), p as int)),
        decreases n - i,
    {
        match read_field(blob, p) {
            None => {
                proof {
                    lemma_fields_over(blob@, o as int, i + 1, n as int);
                }
                return None;
            },
            Some((x, q)) => {
                let ghost before = out@;
                out.push(x);
                assert(contents(out@) =~= contents(before).push(x@));
                p = q;
            },
        }
        i += 1;
    }
    Some((out, p))
}

fn read_stage(blob: &[u8], o: usize) -> (r: Option<(Stage, usize)>)
    requires
        o <= blob@.len(),
    ensures
        match r {
            Some(s) => stage(blob@, o as int) == Some((s.0@, s.1 as int)) && s.1 <= blob@.len(),
            None => stage(blob@, o as int) is None,
        },
{
    match read_field(blob, o) {
        None => None,
        Some((bytes, p)) => match utf8(bytes) {
            None => None,
            Some(path) => {
                assert(blob.len() == blob@.len());
                if blob.len() - p < 4 {
                    return None;
                }
                match read_fields(blob, p + 4, get_u32(blob, p)) {
                    None => None,
                    Some((argv, q)) => Some((Stage { path, argv }, q)),
                }
            },
        },
    }
}

/// Reads a pipeline.
pub fn decode_pipeline(blob: &[u8]) -> (r: Option<Vec<Stage>>)
    ensures
        match r {
            Some(s) => pipeline_of(blob@) == Some(stage_views(s@)),
            None => pipeline_of(blob@) is None,
        },
{
    if blob.len() < 4 {
        return None;
    }
    let n: u32 = get_u32(blob, 0);
    let mut out: Vec<Stage> = Vec::new();
    let mut p: usize = 4;
    let mut i: u32 = 0;
    assert(stage_views(out@) =~= Seq::empty());
    while i < n
        invariant
            i <= n,
            n == u32_at(blob@, 0),
            4 <= blob@.len(),
            p <= blob@.len(),
            stages(blob@, 4, i as int) == Some((stage_views(out@), p as int)),
        decreases n - i,
    {
        match read_stage(blob, p) {
            None => {
                proof {
                    lemma_stages_over(blob@, 4, i + 1, n as int);
                }
                return None;
            },
            Some((x, q)) => {
                let ghost before = out@;
                out.push(x);
                assert(stage_views(out@) =~= stage_views(before).push(x@));
                p = q;
            },
        }
        i += 1;
    }
    Some(out)
}

/// A byte string behind its length.
pub open spec fn field_bytes(x: Seq<u8>) -> Seq<u8> {
    le32(x.len() as u32) + x
}

/// Byte strings in a row, each behind its length.
pub open spec fn fields_bytes(s: Seq<Seq<u8>>) -> Seq<u8>
    decreases s.len(),
{
    if s.len() == 0 {
        Seq::empty()
    } else {
        fields_bytes(s.drop_last()) + field_bytes(s.last())
    }
}

/// A stage as bytes: its path, how many arguments it has, and the arguments.
pub open spec fn stage_bytes(x: StageView) -> Seq<u8> {
    field_bytes(encode_utf8(x.path)) + le32(x.argv.len() as u32) + fields_bytes(x.argv)
}

/// Stages as bytes, in a row.
pub open spec fn stages_bytes(s: Seq<StageView>) -> Seq<u8>
    decreases s.len(),
{
    if s.len() == 0 {
        Seq::empty()
    } else {
        stages_bytes(s.drop_last()) + stage_bytes(s.last())
    }
}

/// A pipeline as bytes: how many stages it has, and the stages.
pub open spec fn pipeline_bytes(s: Seq<StageView>) -> Seq<u8> {
    le32(s.len() as u32) + stages_bytes(s)
}

/// Every length of a stage fits its field.
pub open spec fn stage_fits(x: StageView) -> bool {
    &&& encode_utf8(x.path).len() <= u32::MAX
    &&& x.argv.len() <= u32::MAX
    &&& forall|j: int| 0 <= j < x.argv.len() ==> (#[trigger] x.argv[j]).len() <= u32::MAX
}

/// Every length of a pipeline fits its field.
pub open spec fn pipeline_fits(s: Seq<StageView>) -> bool {
    s.len() <= u32::MAX && forall|i: int| 0 <= i < s.len() ==> stage_fits(#[trigger] s[i])
}

/// Some bytes stand at `o`.
spec fn stands(b: Seq<u8>, o: int, e: Seq<u8>) -> bool {
    0 <= o && o + e.len() <= b.len() && b.subrange(o, o + e.len()) == e
}

proof fn lemma_stand_apart(b: Seq<u8>, o: int, x: Seq<u8>, y: Seq<u8>)
    requires
        stands(b, o, x + y),
    ensures
        stands(b, o, x),
        stands(b, o + x.len(), y),
{
    let e = x + y;
    assert forall|i: int| 0 <= i < e.len() implies b[o + i] == e[i] by {
        assert(b.subrange(o, o + e.len())[i] == e[i]);
    }
    assert(b.subrange(o, o + x.len()) =~= x) by {
        assert forall|i: int| 0 <= i < x.len() implies b[o + i] == x[i] by {
            assert(e[i] == x[i]);
        }
    }
    assert(b.subrange(o + x.len(), o + x.len() + y.len()) =~= y) by {
        assert forall|i: int| 0 <= i < y.len() implies b[o + x.len() + i] == y[i] by {
            assert(e[x.len() + i] == y[i]);
        }
    }
}

proof fn lemma_field_reads(b: Seq<u8>, o: int, x: Seq<u8>)
    requires
        stands(b, o, field_bytes(x)),
        x.len() <= u32::MAX,
    ensures
        field(b, o) == Some((x, o + field_bytes(x).len())),
{
    lemma_stand_apart(b, o, le32(x.len() as u32), x);
    le32_decodes(b, o, x.len() as u32);
}

proof fn lemma_fields_read(b: Seq<u8>, o: int, s: Seq<Seq<u8>>)
    requires
        stands(b, o, fields_bytes(s)),
        forall|j: int| 0 <= j < s.len() ==> (#[trigger] s[j]).len() <= u32::MAX,
    ensures
        fields(b, o, s.len() as int) == Some((s, o + fields_bytes(s).len())),
    decreases s.len(),
{
    if s.len() > 0 {
        let head = s.drop_last();
        lemma_stand_apart(b, o, fields_bytes(head), field_bytes(s.last()));
        assert forall|j: int| 0 <= j < head.len() implies (#[trigger] head[j]).len() <= u32::MAX by {
            assert(head[j] == s[j]);
        }
        lemma_fields_read(b, o, head);
        lemma_field_reads(b, o + fields_bytes(head).len(), s.last());
        assert(head.push(s.last()) =~= s);
    } else {
        assert(s =~= Seq::empty());
    }
}

proof fn lemma_stage_reads(b: Seq<u8>, o: int, x: StageView)
    requires
        stands(b, o, stage_bytes(x)),
        stage_fits(x),
    ensures
        stage(b, o) == Some((x, o + stage_bytes(x).len())),
{
    let path = encode_utf8(x.path);
    let p = o + field_bytes(path).len();
    lemma_stand_apart(b, o, field_bytes(path) + le32(x.argv.len() as u32), fields_bytes(x.argv));
    lemma_stand_apart(b, o, field_bytes(path), le32(x.argv.len() as u32));
    lemma_field_reads(b, o, path);
    le32_decodes(b, p, x.argv.len() as u32);
    lemma_fields_read(b, p + 4, x.argv);
    encode_utf8_valid_utf8(x.path);
    encode_utf8_decode_utf8(x.path);
}

proof fn lemma_stages_read(b: Seq<u8>, o: int, s: Seq<StageView>)
    requires
        stands(b, o, stages_bytes(s)),
        forall|i: int| 0 <= i < s.len() ==> stage_fits(#[trigger] s[i]),
    ensures
        stages(b, o, s.len() as int) == Some((s, o + stages_bytes(s).len())),
    decreases s.len(),
{
    if s.len() > 0 {
        let head = s.drop_last();
        lemma_stand_apart(b, o, stages_bytes(head), stage_bytes(s.last()));
        assert forall|i: int| 0 <= i < head.len() implies stage_fits(#[trigger] head[i]) by {
            assert(head[i] == s[i]);
        }
        lemma_stages_read(b, o, head);
        lemma_stage_reads(b, o + stages_bytes(head).len(), s.last());
        assert(head.push(s.last()) =~= s);
    } else {
        assert(s =~= Seq::empty());
    }
}

proof fn lemma_number_stays(b: Seq<u8>, k: int, o: int)
    requires
        0 <= o,
        o + 4 <= k <= b.len(),
    ensures
        u32_at(b.take(k), o) == u32_at(b, o),
        0 <= u32_at(b, o) <= u32::MAX,
{
}

proof fn lemma_field_stays(b: Seq<u8>, k: int, o: int)
    requires
        0 <= o <= k <= b.len(),
        field(b.take(k), o) is Some,
    ensures
        field(b, o) == field(b.take(k), o),
        o <= (field(b, o)->0).1 <= k,
{
    lemma_number_stays(b, k, o);
    let n = u32_at(b, o);
    assert(b.take(k).subrange(o + 4, o + 4 + n) =~= b.subrange(o + 4, o + 4 + n));
}

proof fn lemma_fields_stay(b: Seq<u8>, k: int, o: int, n: int)
    requires
        0 <= o <= k <= b.len(),
        fields(b.take(k), o, n) is Some,
    ensures
        fields(b, o, n) == fields(b.take(k), o, n),
        o <= (fields(b, o, n)->0).1 <= k,
    decreases n,
{
    if n > 0 {
        lemma_fields_stay(b, k, o, n - 1);
        lemma_field_stays(b, k, (fields(b, o, n - 1)->0).1);
    }
}

proof fn lemma_stage_stays(b: Seq<u8>, k: int, o: int)
    requires
        0 <= o <= k <= b.len(),
        stage(b.take(k), o) is Some,
    ensures
        stage(b, o) == stage(b.take(k), o),
        o <= (stage(b, o)->0).1 <= k,
{
    lemma_field_stays(b, k, o);
    let p = (field(b, o)->0).1;
    lemma_number_stays(b, k, p);
    lemma_fields_stay(b, k, p + 4, u32_at(b, p));
}

proof fn lemma_stages_stay(b: Seq<u8>, k: int, o: int, n: int)
    requires
        0 <= o <= k <= b.len(),
        stages(b.take(k), o, n) is Some,
    ensures
        stages(b, o, n) == stages(b.take(k), o, n),
        o <= (stages(b, o, n)->0).1 <= k,
    decreases n,
{
    if n > 0 {
        lemma_stages_stay(b, k, o, n - 1);
        lemma_stage_stays(b, k, (stages(b, o, n - 1)->0).1);
    }
}

/// A pipeline that was written is read back, whatever follows it.
pub proof fn pipeline_round_trips(s: Seq<StageView>, tail: Seq<u8>)
    requires
        pipeline_fits(s),
    ensures
        pipeline_of(pipeline_bytes(s)) == Some(s),
        pipeline_of(pipeline_bytes(s) + tail) == Some(s),
{
    let b = pipeline_bytes(s) + tail;
    assert(b.subrange(0, pipeline_bytes(s).len() as int) =~= pipeline_bytes(s));
    lemma_pipeline_reads(b, s);
    lemma_pipeline_whole(s);
}

proof fn lemma_pipeline_reads(b: Seq<u8>, s: Seq<StageView>)
    requires
        pipeline_fits(s),
        stands(b, 0, pipeline_bytes(s)),
    ensures
        u32_at(b, 0) == s.len(),
        stages(b, 4, s.len() as int) == Some((s, pipeline_bytes(s).len() as int)),
{
    lemma_stand_apart(b, 0, le32(s.len() as u32), stages_bytes(s));
    le32_decodes(b, 0, s.len() as u32);
    lemma_stages_read(b, 4, s);
}

proof fn lemma_pipeline_whole(s: Seq<StageView>)
    requires
        pipeline_fits(s),
    ensures
        u32_at(pipeline_bytes(s), 0) == s.len(),
        stages(pipeline_bytes(s), 4, s.len() as int) == Some((s, pipeline_bytes(s).len() as int)),
{
    let b = pipeline_bytes(s);
    assert(b.subrange(0, b.len() as int) =~= b);
    lemma_pipeline_reads(b, s);
}

/// What was written of a pipeline is refused where it is cut off, wherever that is.
pub proof fn cut_pipeline_is_refused(s: Seq<StageView>, k: int)
    requires
        pipeline_fits(s),
        0 <= k < pipeline_bytes(s).len(),
    ensures
        pipeline_of(pipeline_bytes(s).take(k)) is None,
{
    let b = pipeline_bytes(s);
    if k >= 4 {
        lemma_number_stays(b, k, 0);
        lemma_pipeline_whole(s);
        if stages(b.take(k), 4, s.len() as int) is Some {
            lemma_stages_stay(b, k, 4, s.len() as int);
        }
    }
}

/// What is read of a pipeline does not depend on what follows it.
pub proof fn bytes_behind_a_pipeline_are_ignored(b: Seq<u8>, tail: Seq<u8>)
    requires
        pipeline_of(b) is Some,
    ensures
        pipeline_of(b + tail) == pipeline_of(b),
{
    let n = b.len() as int;
    let c = b + tail;
    assert(c.take(n) =~= b);
    lemma_number_stays(c, n, 0);
    lemma_stages_stay(c, n, 4, u32_at(b, 0));
}

/// Byte strings in a row are read one behind the other: the first of them stands right behind its
/// length, and those that follow are read from where the ones before end.
pub proof fn strings_are_read_one_behind_the_other(b: Seq<u8>, o: int, n: int, m: int)
    requires
        n >= 0,
        m >= 0,
        fields(b, o, n) is Some,
    ensures
        ({
            let (s, p) = fields(b, o, n)->Some_0;
            &&& s.len() == n
            &&& fields(b, o, n + m) == match fields(b, p, m) {
                Some((t, q)) => Some((s + t, q)),
                None => None,
            }
            &&& fields(b, o, 1) == if o + 4 <= b.len() && o + 4 + u32_at(b, o) <= b.len() {
                Some((seq![b.subrange(o + 4, o + 4 + u32_at(b, o))], o + 4 + u32_at(b, o)))
            } else {
                None
            }
        }),
    decreases n, m,
{
    reveal_with_fuel(fields, 2);
    let (s, p) = fields(b, o, n)->Some_0;
    if n > 0 {
        strings_are_read_one_behind_the_other(b, o, n - 1, 0);
    }
    assert(Seq::<Seq<u8>>::empty().push(b.subrange(o + 4, o + 4 + u32_at(b, o))) =~= seq![
        b.subrange(o + 4, o + 4 + u32_at(b, o)),
    ]);
    if m == 0 {
        assert(s + Seq::<Seq<u8>>::empty() =~= s);
    } else {
        strings_are_read_one_behind_the_other(b, o, n, m - 1);
        if let Some((t, q)) = fields(b, p, m - 1) {
            if let Some((x, _)) = field(b, q) {
                assert((s + t).push(x) =~= s + t.push(x));
            }
        }
    }
}

/// Stages are read one behind the other, from where the ones before end. A stage is its path behind
/// the path's length, the number of its arguments, and the arguments in a row.
pub proof fn stages_are_read_one_behind_the_other(b: Seq<u8>, o: int, n: int, m: int)
    requires
        n >= 0,
        m >= 0,
        stages(b, o, n) is Some,
    ensures
        ({
            let (s, p) = stages(b, o, n)->Some_0;
            &&& s.len() == n
            &&& stages(b, o, n + m) == match stages(b, p, m) {
                Some((t, q)) => Some((s + t, q)),
                None => None,
            }
            &&& n == 1 ==> {
                let len = u32_at(b, o);
                let (args, end) = fields(b, o + 8 + len, u32_at(b, o + 4 + len))->Some_0;
                &&& o + 8 + len <= b.len()
                &&& s[0].path == decode_utf8(b.subrange(o + 4, o + 4 + len))
                &&& fields(b, o + 8 + len, u32_at(b, o + 4 + len)) is Some
                &&& s[0].argv == args
                &&& p == end
            }
        }),
    decreases n, m,
{
    reveal_with_fuel(stages, 2);
    let (s, p) = stages(b, o, n)->Some_0;
    if n > 0 {
        stages_are_read_one_behind_the_other(b, o, n - 1, 0);
    }
    if m == 0 {
        assert(s + Seq::<StageView>::empty() =~= s);
    } else {
        stages_are_read_one_behind_the_other(b, o, n, m - 1);
        if let Some((t, q)) = stages(b, p, m - 1) {
            if let Some((x, _)) = stage(b, q) {
                assert((s + t).push(x) =~= s + t.push(x));
            }
        }
    }
}

/// A pipeline has as many stages as its first four bytes say, and they stand behind them.
pub proof fn pipelines_begin_with_their_count(b: Seq<u8>)
    ensures
        pipeline_of(b) is Some <==> b.len() >= 4 && stages(b, 4, u32_at(b, 0)) is Some,
        pipeline_of(b) is Some ==> pipeline_of(b)->Some_0.len() == u32_at(b, 0) && pipeline_of(b)->Some_0 == stages(
            b,
            4,
            u32_at(b, 0),
        )->Some_0.0,
{
    if pipeline_of(b) is Some {
        stages_are_read_one_behind_the_other(b, 4, u32_at(b, 0), 0);
    }
}

} // verus!
