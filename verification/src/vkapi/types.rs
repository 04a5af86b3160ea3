//! The message model: a tree of messages with photo attachments, forwarded
//! messages as children and an optional replied-to message.

use vstd::prelude::*;

verus! {

/// A photo attachment, reduced to the URL of its chosen rendition.
#[derive(Debug, PartialEq)]
pub struct VkPhoto(pub String);

impl Clone for VkPhoto {
    fn clone(&self) -> (r: Self)
        ensures
            r == *self,
    {
        VkPhoto(self.0.clone())
    }
}

/// One inbound message: its text, the sender, its own photo attachments,
/// the forwarded messages and the optional replied-to message.
#[derive(Debug, PartialEq)]
pub struct VkMessage {
    pub text: String,
    pub from_id: i64,
    pub attachments: Vec<VkPhoto>,
    pub forwarded: Vec<VkMessage>,
    pub reply_to: Option<Box<VkMessage>>,
}

/// Every photo reachable from `m`: its own attachments first, then each
/// forwarded message's (recursively, depth first), then the reply chain's.
pub open spec fn spec_all_attachments(m: VkMessage) -> Seq<VkPhoto>
    decreases m,
{
    m.attachments@ + spec_forwarded_attachments(m.forwarded@) + (match m.reply_to {
        Some(r) => spec_all_attachments(*r),
        None => Seq::empty(),
    })
}

/// The photos reachable from a run of forwarded messages, in order.
pub open spec fn spec_forwarded_attachments(ms: Seq<VkMessage>) -> Seq<VkPhoto>
    decreases ms,
{
    if ms.len() == 0 {
        Seq::empty()
    } else {
        spec_all_attachments(ms[0]) + spec_forwarded_attachments(ms.drop_first())
    }
}

impl VkMessage {
    /// Collects every reachable photo, in the enumeration order of
    /// `spec_all_attachments`: own attachments, forwarded trees, reply chain.
    pub fn all_attachments(&self) -> (r: Vec<VkPhoto>)
        ensures
            r@ == spec_all_attachments(*self),
    {
        let mut out: Vec<VkPhoto> = Vec::new();
        self.append_attachments(&mut out);
        proof {
            assert(Seq::<VkPhoto>::empty() + spec_all_attachments(*self) =~= spec_all_attachments(
                *self,
            ));
        }
        out
    }

    /// Appends every photo reachable from `self` to `out`.
    fn append_attachments(&self, out: &mut Vec<VkPhoto>)
        ensures
            final(out)@ == old(out)@ + spec_all_attachments(*self),
        decreases *self,
    {
        let ghost base: Seq<VkPhoto> = out@;
        let n = self.attachments.len();
        let mut i: usize = 0;
        while i < n
            invariant
                n == self.attachments@.len(),
                0 <= i <= n,
                out@ == base + self.attachments@.take(i as int),
            decreases n - i,
        {
            out.push(self.attachments[i].clone());
            proof {
                assert(self.attachments@.take(i as int).push(self.attachments@[i as int])
                    =~= self.attachments@.take(i + 1));
                assert(out@ =~= base + self.attachments@.take(i + 1));
            }
            i = i + 1;
        }
        proof {
            assert(self.attachments@.take(n as int) =~= self.attachments@);
        }
        let m = self.forwarded.len();
        let mut j: usize = 0;
        proof {
            assert(self.forwarded@.skip(0) =~= self.forwarded@);
            assert((base + self.attachments@) + spec_forwarded_attachments(self.forwarded@.skip(0))
                =~= base + self.attachments@ + spec_forwarded_attachments(self.forwarded@));
        }
        while j < m
            invariant
                m == self.forwarded@.len(),
                0 <= j <= m,
                out@ + spec_forwarded_attachments(self.forwarded@.skip(j as int)) == base
                    + self.attachments@ + spec_forwarded_attachments(self.forwarded@),
            decreases m - j,
        {
            let ghost before: Seq<VkPhoto> = out@;
            self.forwarded[j].append_attachments(out);
            proof {
                let s = self.forwarded@.skip(j as int);
                assert(s[0] == self.forwarded@[j as int]);
                assert(s.drop_first() =~= self.forwarded@.skip(j + 1));
                assert(spec_forwarded_attachments(s) == spec_all_attachments(
                    self.forwarded@[j as int],
                ) + spec_forwarded_attachments(self.forwarded@.skip(j + 1)));
                assert(out@ + spec_forwarded_attachments(self.forwarded@.skip(j + 1)) =~= before
                    + spec_forwarded_attachments(s));
            }
            j = j + 1;
        }
        proof {
            assert(self.forwarded@.skip(m as int) =~= Seq::<VkMessage>::empty());
            assert(out@ + Seq::<VkPhoto>::empty() =~= out@);
        }
        match &self.reply_to {
            Some(r) => {
                let ghost before: Seq<VkPhoto> = out@;
                r.append_attachments(out);
                proof {
                    assert(out@ =~= base + spec_all_attachments(*self));
                }
            },
            None => {
                proof {
                    assert(out@ + Seq::<VkPhoto>::empty() =~= out@);
                    assert(out@ =~= base + spec_all_attachments(*self));
                }
            },
        }
    }
}

} // verus!
