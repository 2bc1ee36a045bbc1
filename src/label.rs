//! GSE labels: the destination address carried in complete packets and
//! first fragments.
use vstd::prelude::*;
use crate::gse_standard::{LABEL_3_B_LEN, LABEL_6_B_LEN, LABEL_BROADCAST_LEN, LABEL_REUSE_LEN};

verus! {

/// A label with its bytes.
///
/// `ReUse` stands for the last six- or three-byte label seen in the same
/// baseband frame; `Broadcast` carries no bytes.
#[derive(PartialEq, Eq, Debug, Clone, Copy)]
pub enum Label {
    SixBytesLabel([u8; 6]),
    ThreeBytesLabel([u8; 3]),
    Broadcast,
    ReUse,
}

/// The kind of a label, as the two label-type bits of a header encode it.
#[derive(PartialEq, Eq, Debug, Clone, Copy, Structural)]
pub enum LabelType {
    SixBytesLabel,
    ThreeBytesLabel,
    Broadcast,
    ReUse,
}

impl LabelType {
    /// Number of label bytes that follow a header of this label type.
    pub open spec fn spec_len(self) -> nat {
        match self {
            LabelType::SixBytesLabel => 6,
            LabelType::ThreeBytesLabel => 3,
            LabelType::Broadcast => 0,
            LabelType::ReUse => 0,
        }
    }

    #[allow(clippy::len_without_is_empty)]
    pub fn len(&self) -> (r: usize)
        ensures
            r == self.spec_len(),
    {
        match self {
            LabelType::SixBytesLabel => LABEL_6_B_LEN,
            LabelType::ThreeBytesLabel => LABEL_3_B_LEN,
            LabelType::Broadcast => LABEL_BROADCAST_LEN,
            LabelType::ReUse => LABEL_REUSE_LEN,
        }
    }
}

impl Label {
    pub open spec fn spec_type(self) -> LabelType {
        match self {
            Label::SixBytesLabel(_) => LabelType::SixBytesLabel,
            Label::ThreeBytesLabel(_) => LabelType::ThreeBytesLabel,
            Label::Broadcast => LabelType::Broadcast,
            Label::ReUse => LabelType::ReUse,
        }
    }

    /// The bytes of the label as they stand on the wire.
    pub open spec fn bytes(self) -> Seq<u8> {
        match self {
            Label::SixBytesLabel(b) => b@,
            Label::ThreeBytesLabel(b) => b@,
            Label::Broadcast => Seq::empty(),
            Label::ReUse => Seq::empty(),
        }
    }

    pub open spec fn spec_len(self) -> nat {
        self.spec_type().spec_len()
    }

    /// The six-byte label of all zeros, which marks padding and is never an
    /// address.
    pub open spec fn is_zero_label(self) -> bool {
        match self {
            Label::SixBytesLabel(b) => b@ == seq![0u8, 0u8, 0u8, 0u8, 0u8, 0u8],
            _ => false,
        }
    }

    /// A label that names a destination by its bytes.
    pub open spec fn is_explicit(self) -> bool {
        self is SixBytesLabel || self is ThreeBytesLabel
    }

    /// The label of type `t` whose bytes are `b`.
    pub open spec fn from_bytes(t: LabelType, b: Seq<u8>) -> Label {
        match t {
            LabelType::SixBytesLabel => Label::SixBytesLabel([b[0], b[1], b[2], b[3], b[4], b[5]]),
            LabelType::ThreeBytesLabel => Label::ThreeBytesLabel([b[0], b[1], b[2]]),
            LabelType::Broadcast => Label::Broadcast,
            LabelType::ReUse => Label::ReUse,
        }
    }

    /// True when the label is the all-zero six-byte label.
    pub fn is_zero(&self) -> (r: bool)
        ensures
            r == self.is_zero_label(),
    {
        match self {
            Label::SixBytesLabel(b) => {
                let z = b[0] == 0 && b[1] == 0 && b[2] == 0 && b[3] == 0 && b[4] == 0 && b[5] == 0;
                proof {
                    if z {
                        assert(b@ =~= seq![0u8, 0u8, 0u8, 0u8, 0u8, 0u8]);
                    } else {
                        assert(b@ != seq![0u8, 0u8, 0u8, 0u8, 0u8, 0u8]) by {
                            if b@ == seq![0u8, 0u8, 0u8, 0u8, 0u8, 0u8] {
                                assert(b@[0] == 0 && b@[1] == 0 && b@[2] == 0);
                                assert(b@[3] == 0 && b@[4] == 0 && b@[5] == 0);
                            }
                        }
                    }
                }
                z
            },
            _ => false,
        }
    }

    /// Equality of labels, by kind and bytes.
    pub fn same_as(&self, other: &Label) -> (r: bool)
        ensures
            r == (*self == *other),
    {
        match (self, other) {
            (Label::SixBytesLabel(a), Label::SixBytesLabel(b)) => {
                let e = a[0] == b[0] && a[1] == b[1] && a[2] == b[2] && a[3] == b[3] && a[4] == b[4]
                    && a[5] == b[5];
                proof {
                    if e {
                        assert(a@ =~= b@);
                        assert(*a == *b);
                    }
                }
                e
            },
            (Label::ThreeBytesLabel(a), Label::ThreeBytesLabel(b)) => {
                let e = a[0] == b[0] && a[1] == b[1] && a[2] == b[2];
                proof {
                    if e {
                        assert(a@ =~= b@);
                        assert(*a == *b);
                    }
                }
                e
            },
            (Label::Broadcast, Label::Broadcast) => true,
            (Label::ReUse, Label::ReUse) => true,
            _ => false,
        }
    }

    /// A label is rebuilt from its type and its bytes.
    pub proof fn lemma_from_own_bytes(self)
        ensures
            Label::from_bytes(self.spec_type(), self.bytes()) == self,
    {
        broadcast use vstd::array::group_array_axioms;
        match self {
            Label::SixBytesLabel(a) => {
                let b = [a@[0], a@[1], a@[2], a@[3], a@[4], a@[5]];
                assert(b@ =~= a@);
                assert(b == a);
            },
            Label::ThreeBytesLabel(a) => {
                let b = [a@[0], a@[1], a@[2]];
                assert(b@ =~= a@);
                assert(b == a);
            },
            _ => {},
        }
    }

    pub fn get_type(&self) -> (r: LabelType)
        ensures
            r == self.spec_type(),
    {
        match self {
            Label::SixBytesLabel(_) => LabelType::SixBytesLabel,
            Label::ThreeBytesLabel(_) => LabelType::ThreeBytesLabel,
            Label::Broadcast => LabelType::Broadcast,
            Label::ReUse => LabelType::ReUse,
        }
    }

    #[allow(clippy::len_without_is_empty)]
    pub fn len(&self) -> (r: usize)
        ensures
            r == self.spec_len(),
            r == self.bytes().len(),
    {
        match self {
            Label::SixBytesLabel(_) => LABEL_6_B_LEN,
            Label::ThreeBytesLabel(_) => LABEL_3_B_LEN,
            Label::Broadcast => LABEL_BROADCAST_LEN,
            Label::ReUse => LABEL_REUSE_LEN,
        }
    }

    /// Builds the label of type `label_type` from its bytes.
    pub fn new(label_type: &LabelType, label: &[u8]) -> (r: Label)
        requires
            label@.len() == label_type.spec_len(),
        ensures
            r == Label::from_bytes(*label_type, label@),
            r.spec_type() == *label_type,
            r.bytes() == label@,
    {
        let r = match label_type {
            LabelType::SixBytesLabel => Label::SixBytesLabel(
                [label[0], label[1], label[2], label[3], label[4], label[5]],
            ),
            LabelType::ThreeBytesLabel => Label::ThreeBytesLabel([label[0], label[1], label[2]]),
            LabelType::Broadcast => Label::Broadcast,
            LabelType::ReUse => Label::ReUse,
        };
        proof {
            if r is SixBytesLabel || r is ThreeBytesLabel {
                assert(r.bytes() =~= label@);
            }
        }
        r
    }

    /// The label's bytes.
    pub fn get_bytes(&self) -> (r: &[u8])
        ensures
            r@ == self.bytes(),
    {
        match self {
            Label::SixBytesLabel(label) => label.as_slice(),
            Label::ThreeBytesLabel(label) => label.as_slice(),
            Label::Broadcast | Label::ReUse => &[],
        }
    }
}

} // verus!
