//! Properties: opaque byte strings attached to spans, kept as parallel
//! arrays of span ids and lengths over one payload.
use vstd::prelude::*;

verus! {

/// The sum of `lens`.
pub open spec fn lens_sum(lens: Seq<usize>) -> nat
    decreases lens.len(),
{
    if lens.len() == 0 {
        0
    } else {
        (lens_sum(lens.drop_last()) + lens.last()) as nat
    }
}

/// The entries that the arrays describe: entry `k` is the `k`-th span id
/// with the `k`-th run of bytes of the payload.
pub open spec fn entries_of(ids: Seq<u32>, lens: Seq<usize>, payload: Seq<u8>) -> Seq<(u32, Seq<u8>)>
    decreases ids.len(),
{
    if ids.len() == 0 || lens.len() == 0 || payload.len() < lens.last() {
        Seq::empty()
    } else {
        let start = payload.len() - lens.last();
        entries_of(ids.drop_last(), lens.drop_last(), payload.subrange(0, start)).push(
            (ids.last(), payload.subrange(start, payload.len() as int)),
        )
    }
}

proof fn lemma_lens_sum_prefix(lens: Seq<usize>, k: int)
    requires
        0 <= k <= lens.len(),
    ensures
        lens_sum(lens.take(k)) <= lens_sum(lens),
    decreases lens.len(),
{
    if k < lens.len() {
        assert(lens.drop_last().take(k) =~= lens.take(k));
        lemma_lens_sum_prefix(lens.drop_last(), k);
    } else {
        assert(lens.take(k) =~= lens);
    }
}

/// The properties recorded on a thread, in the order they were appended.
#[derive(Clone, Debug)]
pub struct Properties {
    span_ids: Vec<u32>,
    span_lens: Vec<usize>,
    payload: Vec<u8>,
}

impl Properties {
    /// The lengths sum to the payload's length, one length per span id.
    pub closed spec fn wf(&self) -> bool {
        &&& self.span_ids.len() == self.span_lens.len()
        &&& lens_sum(self.span_lens@) == self.payload.len()
    }

    /// The recorded entries: span id and bytes, in order.
    pub closed spec fn entries(&self) -> Seq<(u32, Seq<u8>)> {
        entries_of(self.span_ids@, self.span_lens@, self.payload@)
    }

    pub closed spec fn payload_len(&self) -> nat {
        self.payload.len() as nat
    }

    pub fn new() -> (p: Properties)
        ensures
            p.wf(),
            p.entries() == Seq::<(u32, Seq<u8>)>::empty(),
            p.payload_len() == 0,
    {
        Properties { span_ids: Vec::new(), span_lens: Vec::new(), payload: Vec::new() }
    }

    pub fn len(&self) -> (n: usize)
        requires
            self.wf(),
        ensures
            n == self.entries().len(),
    {
        proof {
            self.lemma_entries_len();
        }
        self.span_ids.len()
    }

    proof fn lemma_entries_len(&self)
        requires
            self.wf(),
        ensures
            self.entries().len() == self.span_ids.len(),
    {
        lemma_entries_of_len(self.span_ids@, self.span_lens@, self.payload@);
    }

    /// The number of payload bytes.
    pub fn payload_size(&self) -> (n: usize)
        ensures
            n == self.payload_len(),
    {
        self.payload.len()
    }

    /// Appends `bytes` under `span_id`.
    pub fn push(&mut self, span_id: u32, bytes: &[u8])
        requires
            old(self).wf(),
            old(self).payload_len() + bytes@.len() <= usize::MAX,
        ensures
            final(self).wf(),
            final(self).entries() == old(self).entries().push((span_id, bytes@)),
            final(self).payload_len() == old(self).payload_len() + bytes@.len(),
    {
        let ghost old_payload = self.payload@;
        let mut i: usize = 0;
        while i < bytes.len()
            invariant
                i <= bytes@.len(),
                old_payload.len() + bytes@.len() <= usize::MAX,
                self.payload@ == old_payload + bytes@.take(i as int),
                self.span_ids@ == old(self).span_ids@,
                self.span_lens@ == old(self).span_lens@,
                old(self).wf(),
                old_payload == old(self).payload@,
            decreases bytes@.len() - i,
        {
            self.payload.push(bytes[i]);
            i = i + 1;
            assert(old_payload + bytes@.take(i as int) =~= (old_payload + bytes@.take(i - 1)).push(bytes@[i - 1]));
        }
        let ghost old_ids = self.span_ids@;
        let ghost old_lens = self.span_lens@;
        self.span_ids.push(span_id);
        self.span_lens.push(bytes.len());
        proof {
            assert(bytes@.take(bytes@.len() as int) =~= bytes@);
            assert(self.span_ids@.drop_last() =~= old_ids);
            assert(self.span_lens@.drop_last() =~= old_lens);
            assert(self.payload@.subrange(0, old_payload.len() as int) =~= old_payload);
            assert(self.payload@.subrange(old_payload.len() as int, self.payload@.len() as int) =~= bytes@);
        }
    }

    /// The entries as owned values.
    pub fn to_entries(&self) -> (r: Vec<(u32, Vec<u8>)>)
        requires
            self.wf(),
        ensures
            r@.map_values(|e: (u32, Vec<u8>)| (e.0, e.1@)) == self.entries(),
    {
        let mut r: Vec<(u32, Vec<u8>)> = Vec::new();
        let mut k: usize = 0;
        let mut off: usize = 0;
        while k < self.span_ids.len()
            invariant
                self.wf(),
                k <= self.span_ids.len(),
                off == lens_sum(self.span_lens@.take(k as int)),
                r@.map_values(|e: (u32, Vec<u8>)| (e.0, e.1@)) == entries_of(
                    self.span_ids@.take(k as int),
                    self.span_lens@.take(k as int),
                    self.payload@.take(off as int),
                ),
            decreases self.span_ids.len() - k,
        {
            let ghost lens = self.span_lens@;
            let l = self.span_lens[k];
            proof {
                assert(lens.take(k + 1).drop_last() =~= lens.take(k as int));
                lemma_lens_sum_prefix(lens, k + 1);
            }
            let mut bytes: Vec<u8> = Vec::new();
            let mut j: usize = 0;
            while j < l
                invariant
                    self.wf(),
                    j <= l,
                    l == self.span_lens@[k as int],
                    off + l <= self.payload.len(),
                    bytes@ == self.payload@.subrange(off as int, off + j),
                decreases l - j,
            {
                bytes.push(self.payload[off + j]);
                j = j + 1;
                assert(bytes@ =~= self.payload@.subrange(off as int, off + j));
            }
            let ghost prev = r@;
            r.push((self.span_ids[k], bytes));
            proof {
                let ids = self.span_ids@;
                let p = self.payload@;
                let off2 = off + l;
                assert(ids.take(k + 1).drop_last() =~= ids.take(k as int));
                assert(p.take(off2).subrange(0, off as int) =~= p.take(off as int));
                assert(p.take(off2).subrange(off as int, off2) =~= p.subrange(off as int, off2));
                assert(r@.map_values(|e: (u32, Vec<u8>)| (e.0, e.1@)) =~= prev.map_values(
                    |e: (u32, Vec<u8>)| (e.0, e.1@),
                ).push((ids[k as int], p.subrange(off as int, off2))));
            }
            off = off + l;
            k = k + 1;
        }
        proof {
            assert(self.span_ids@.take(k as int) =~= self.span_ids@);
            assert(self.span_lens@.take(k as int) =~= self.span_lens@);
            assert(self.payload@.take(off as int) =~= self.payload@);
        }
        r
    }
    /// Whether the arrays are consistent; submissions are checked with this
    /// before their properties are read.
    pub fn check_wf(&self) -> (b: bool)
        ensures
            b == self.wf(),
    {
        if self.span_ids.len() != self.span_lens.len() {
            return false;
        }
        let mut sum: usize = 0;
        let mut k: usize = 0;
        while k < self.span_lens.len()
            invariant
                k <= self.span_lens@.len(),
                sum == lens_sum(self.span_lens@.take(k as int)),
                sum <= self.payload@.len(),
            decreases self.span_lens@.len() - k,
        {
            let l = self.span_lens[k];
            proof {
                assert(self.span_lens@.take(k + 1).drop_last() =~= self.span_lens@.take(k as int));
                lemma_lens_sum_prefix(self.span_lens@, k + 1);
            }
            if l > self.payload.len() - sum {
                return false;
            }
            sum = sum + l;
            k = k + 1;
        }
        assert(self.span_lens@.take(k as int) =~= self.span_lens@);
        sum == self.payload.len()
    }
}

proof fn lemma_entries_of_len(ids: Seq<u32>, lens: Seq<usize>, payload: Seq<u8>)
    requires
        ids.len() == lens.len(),
        lens_sum(lens) == payload.len(),
    ensures
        entries_of(ids, lens, payload).len() == ids.len(),
    decreases ids.len(),
{
    if ids.len() > 0 {
        let start = payload.len() - lens.last();
        lemma_entries_of_len(ids.drop_last(), lens.drop_last(), payload.subrange(0, start));
    }
}

} // verus!
