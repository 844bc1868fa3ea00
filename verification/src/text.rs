use vstd::prelude::*;

verus! {

/// ASCII uppercase letters map to lowercase; every other byte is unchanged.
pub open spec fn to_lower(b: u8) -> u8 {
    if 65 <= b && b <= 90 {
        (b + 32) as u8
    } else {
        b
    }
}

/// A text value produced by parsing: either a sub-range of the original
/// input buffer (no allocation), or an independently owned byte buffer.
/// Borrowed ranges are indices into the buffer that every parser call
/// receives explicitly, so adjacency is decided on indices.
#[derive(Debug)]
pub enum Text {
    Borrowed { start: usize, end: usize },
    Owned { bytes: Vec<u8> },
}

impl Text {
    /// A Borrowed range lies within the buffer; an Owned value always does.
    pub open spec fn wf(self, buf: Seq<u8>) -> bool {
        match self {
            Text::Borrowed { start, end } => start <= end && end <= buf.len(),
            Text::Owned { bytes } => true,
        }
    }

    /// The bytes this value denotes, relative to the original buffer.
    pub open spec fn content(self, buf: Seq<u8>) -> Seq<u8> {
        match self {
            Text::Borrowed { start, end } => buf.subrange(start as int, end as int),
            Text::Owned { bytes } => bytes@,
        }
    }

    /// Constructs a Borrowed value over `buf[start..end]`; no allocation.
    pub fn from_borrowed(buf: &[u8], start: usize, end: usize) -> (r: Text)
        requires
            start <= end <= buf@.len(),
        ensures
            r == (Text::Borrowed { start, end }),
            r.wf(buf@),
            r.content(buf@) == buf@.subrange(start as int, end as int),
    {
        Text::Borrowed { start, end }
    }

    /// Number of bytes this value denotes.
    pub fn len(&self, buf: &[u8]) -> (r: usize)
        requires
            self.wf(buf@),
        ensures
            r == self.content(buf@).len(),
    {
        match self {
            Text::Borrowed { start, end } => *end - *start,
            Text::Owned { bytes } => bytes.len(),
        }
    }

    /// The byte at position `i` of the denoted content.
    pub fn byte_at(&self, buf: &[u8], i: usize) -> (r: u8)
        requires
            self.wf(buf@),
            i < self.content(buf@).len(),
        ensures
            r == self.content(buf@)[i as int],
    {
        match self {
            Text::Borrowed { start, end } => buf[*start + i],
            Text::Owned { bytes } => bytes[i],
        }
    }

    /// The denoted content as an owned byte vector.
    pub fn to_vec(&self, buf: &[u8]) -> (r: Vec<u8>)
        requires
            self.wf(buf@),
        ensures
            r@ == self.content(buf@),
    {
        match self {
            Text::Borrowed { start, end } => {
                let mut v: Vec<u8> = Vec::new();
                push_range(&mut v, buf, *start, *end);
                assert(v@ =~= self.content(buf@));
                v
            }
            Text::Owned { bytes } => {
                let mut v: Vec<u8> = Vec::new();
                push_text_bytes(&mut v, bytes);
                assert(v@ =~= self.content(buf@));
                v
            }
        }
    }

    /// True iff the denoted content equals `lit`.
    pub fn eq_bytes(&self, buf: &[u8], lit: &[u8]) -> (r: bool)
        requires
            self.wf(buf@),
        ensures
            r <==> self.content(buf@) == lit@,
    {
        let n = self.len(buf);
        if n != lit.len() {
            assert(self.content(buf@).len() != lit@.len());
            return false;
        }
        let mut i: usize = 0;
        while i < n
            invariant
                n == self.content(buf@).len() == lit@.len(),
                i <= n,
                self.wf(buf@),
                forall|j: int| 0 <= j < i ==> self.content(buf@)[j] == lit@[j],
            decreases n - i,
        {
            if self.byte_at(buf, i) != lit[i] {
                return false;
            }
            i += 1;
        }
        proof {
            assert(self.content(buf@) =~= lit@);
        }
        true
    }

    /// Appends `b` after `a`. If both are Borrowed and `b` starts exactly
    /// where `a` ends, the result stays Borrowed over the widened range
    /// (zero-copy); in every other case the result is Owned and holds the
    /// byte-wise concatenation.
    pub fn merge(buf: &[u8], a: Text, b: Text) -> (r: Text)
        requires
            a.wf(buf@),
            b.wf(buf@),
        ensures
            merge_rel(buf@, a, b, r),
            r.wf(buf@),
            r.content(buf@) == a.content(buf@) + b.content(buf@),
            a is Borrowed && b is Borrowed && b->Borrowed_start == a->Borrowed_end ==> r == (
            Text::Borrowed { start: a->Borrowed_start, end: b->Borrowed_end }),
            a is Borrowed && b is Borrowed && b->Borrowed_start != a->Borrowed_end ==> r
                is Owned,
            a is Owned ==> r is Owned,
            b is Owned ==> r is Owned,
    {
        match (a, b) {
            (
                Text::Borrowed { start: a_start, end: a_end },
                Text::Borrowed { start: b_start, end: b_end },
            ) => {
                if b_start == a_end {
                    let r = Text::Borrowed { start: a_start, end: b_end };
                    proof {
                        assert(buf@.subrange(a_start as int, b_end as int) =~= buf@.subrange(
                            a_start as int,
                            a_end as int,
                        ) + buf@.subrange(b_start as int, b_end as int));
                    }
                    r
                } else {
                    let mut v: Vec<u8> = Vec::new();
                    push_range(&mut v, buf, a_start, a_end);
                    push_range(&mut v, buf, b_start, b_end);
                    Text::Owned { bytes: v }
                }
            }
            (Text::Owned { bytes: mut a_vec }, Text::Borrowed { start: b_start, end: b_end }) => {
                push_range(&mut a_vec, buf, b_start, b_end);
                Text::Owned { bytes: a_vec }
            }
            (Text::Borrowed { start: a_start, end: a_end }, Text::Owned { bytes: b_vec }) => {
                let mut v: Vec<u8> = Vec::new();
                push_range(&mut v, buf, a_start, a_end);
                push_text_bytes(&mut v, &b_vec);
                Text::Owned { bytes: v }
            }
            (Text::Owned { bytes: mut a_vec }, Text::Owned { bytes: b_vec }) => {
                push_text_bytes(&mut a_vec, &b_vec);
                Text::Owned { bytes: a_vec }
            }
        }
    }

    /// Returns the value with ASCII letters lowercased. When no byte needed
    /// changing the value is returned as it is (a Borrowed value stays
    /// Borrowed); otherwise the result is Owned.
    pub fn lowercase(buf: &[u8], t: Text) -> (r: Text)
        requires
            t.wf(buf@),
        ensures
            r.wf(buf@),
            r.content(buf@) == t.content(buf@).map_values(|b: u8| to_lower(b)),
            (forall|j: int|
                0 <= j < t.content(buf@).len() ==> to_lower(t.content(buf@)[j]) == t.content(
                    buf@,
                )[j]) ==> r == t,
    {
        let ghost mapped = t.content(buf@).map_values(|b: u8| to_lower(b));
        let n = t.len(buf);
        let mut i: usize = 0;
        let mut unchanged = true;
        while i < n
            invariant
                n == t.content(buf@).len(),
                i <= n,
                t.wf(buf@),
                unchanged <==> (forall|j: int|
                    0 <= j < i ==> to_lower(t.content(buf@)[j]) == t.content(buf@)[j]),
            decreases n - i,
        {
            let c = t.byte_at(buf, i);
            if 65 <= c && c <= 90 {
                unchanged = false;
            }
            i += 1;
        }
        if unchanged {
            proof {
                assert(t.content(buf@) =~= mapped);
            }
            t
        } else {
            let mut v: Vec<u8> = Vec::new();
            let mut i: usize = 0;
            while i < n
                invariant
                    n == t.content(buf@).len(),
                    i <= n,
                    t.wf(buf@),
                    mapped == t.content(buf@).map_values(|b: u8| to_lower(b)),
                    v@.len() == i,
                    forall|j: int| 0 <= j < i ==> v@[j] == to_lower(t.content(buf@)[j]),
                decreases n - i,
            {
                let c = t.byte_at(buf, i);
                if 65 <= c && c <= 90 {
                    v.push(c + 32);
                } else {
                    v.push(c);
                }
                i += 1;
            }
            proof {
                assert(v@ =~= mapped);
            }
            Text::Owned { bytes: v }
        }
    }
}

/// What `merge` guarantees of its result: the concatenated content, and
/// the Borrowed-or-Owned outcome that the adjacency of the operands fixes.
pub open spec fn merge_rel(buf: Seq<u8>, a: Text, b: Text, r: Text) -> bool {
    &&& r.wf(buf)
    &&& r.content(buf) == a.content(buf) + b.content(buf)
    &&& (a is Borrowed && b is Borrowed && b->Borrowed_start == a->Borrowed_end ==> r == (
    Text::Borrowed { start: a->Borrowed_start, end: b->Borrowed_end }))
    &&& (a is Borrowed && b is Borrowed && b->Borrowed_start != a->Borrowed_end ==> r is Owned)
    &&& (a is Owned ==> r is Owned)
    &&& (b is Owned ==> r is Owned)
}

/// Appends `buf[start..end]` to `out`.
fn push_range(out: &mut Vec<u8>, buf: &[u8], start: usize, end: usize)
    requires
        start <= end <= buf@.len(),
    ensures
        final(out)@ == old(out)@ + buf@.subrange(start as int, end as int),
{
    let mut i: usize = start;
    while i < end
        invariant
            start <= i <= end <= buf@.len(),
            out@ == old(out)@ + buf@.subrange(start as int, i as int),
        decreases end - i,
    {
        out.push(buf[i]);
        proof {
            assert(out@ =~= old(out)@ + buf@.subrange(start as int, i + 1));
        }
        i += 1;
    }
}

/// Appends the contents of `src` to `out`.
fn push_text_bytes(out: &mut Vec<u8>, src: &Vec<u8>)
    ensures
        final(out)@ == old(out)@ + src@,
{
    let mut i: usize = 0;
    while i < src.len()
        invariant
            i <= src@.len(),
            out@ == old(out)@ + src@.subrange(0, i as int),
        decreases src@.len() - i,
    {
        out.push(src[i]);
        proof {
            assert(out@ =~= old(out)@ + src@.subrange(0, i + 1));
        }
        i += 1;
    }
    proof {
        assert(old(out)@ + src@.subrange(0, src@.len() as int) =~= old(out)@ + src@);
    }
}

} // verus!
