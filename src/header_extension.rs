//! Header extensions.
//!
//! A header extension id stands where the protocol type would, whenever that
//! value is below 1536; its data and the true protocol type follow the label.
//! Bits 8..10 of an id (H-LEN) give the length of its data:
//!
//! | H-LEN | data length      | ids          |
//! |-------|------------------|--------------|
//! | 0     | by the registry  | 0..255       |
//! | 1..5  | 0, 2, 4, 6, 8    | 256..1535    |
//! | >= 6  | a protocol type  | 1536..65535  |
//!
//! A mandatory extension (H-LEN 0) must be known to the receiver, through a
//! `MandatoryHeaderExtensionManager`; a final one takes the place of the
//! protocol type and ends the chain.
use vstd::prelude::*;
use vstd::slice::{slice_subrange, slice_to_vec};
use crate::utils::{be16, lemma_read_be16, push_bytes, read_be16, read_u16_be};
use crate::gse_standard::{
    INTERNAL_SIGNALING_PROTOCOL_ID, MAX_MANDATORY_VAL_PTYPE, NCR_PROTOCOL_ID, PROTOCOL_LEN,
    SECOND_RANGE_PTYPE,
};

verus! {

pub type ExtID = u16;

/// Data length of an optional extension by its H-LEN, if it is one.
pub open spec fn hlen_data_len(h_len: u16) -> Option<nat> {
    if h_len == 1 {
        Some(0)
    } else if h_len == 2 {
        Some(2)
    } else if h_len == 3 {
        Some(4)
    } else if h_len == 4 {
        Some(6)
    } else if h_len == 5 {
        Some(8)
    } else {
        None
    }
}

/// H-LEN of an id.
pub open spec fn hlen_of(id: u16) -> u16 {
    id >> 8u16
}

/// One header extension: an id and its data.
#[derive(Debug, PartialEq, Eq, Clone)]
pub struct Extension {
    pub id: ExtID,
    pub data: ExtensionData,
}

/// The data of a header extension. Optional extensions hold 0, 2, 4, 6 or 8
/// bytes, as their id says; a mandatory one holds what the registry says.
#[derive(Debug, Clone, PartialEq, Eq)]
pub enum ExtensionData {
    Data2([u8; 2]),
    Data4([u8; 4]),
    Data6([u8; 6]),
    Data8([u8; 8]),
    NoData,
    MandatoryData(Vec<u8>),
}

impl ExtensionData {
    pub open spec fn bytes(self) -> Seq<u8> {
        match self {
            ExtensionData::Data2(b) => b@,
            ExtensionData::Data4(b) => b@,
            ExtensionData::Data6(b) => b@,
            ExtensionData::Data8(b) => b@,
            ExtensionData::NoData => Seq::empty(),
            ExtensionData::MandatoryData(v) => v@,
        }
    }

    /// Copies the data's bytes to the end of `out`.
    pub fn append_to(&self, out: &mut Vec<u8>)
        ensures
            final(out)@ == old(out)@ + self.bytes(),
    {
        match self {
            ExtensionData::Data2(b) => push_bytes(out, b.as_slice()),
            ExtensionData::Data4(b) => push_bytes(out, b.as_slice()),
            ExtensionData::Data6(b) => push_bytes(out, b.as_slice()),
            ExtensionData::Data8(b) => push_bytes(out, b.as_slice()),
            ExtensionData::NoData => {
                assert(old(out)@ + self.bytes() =~= old(out)@);
            },
            ExtensionData::MandatoryData(v) => push_bytes(out, v.as_slice()),
        }
    }
}


/// Error of `Extension::new`.
#[derive(Debug, PartialEq, Eq, Clone, Copy, Structural)]
pub enum NewExtensionError {
    /// The length of the data does not match the id.
    IdAndVecSizeNotMatchingError,
    /// The id is 1536 or more: a protocol type, not an extension.
    IncorrectExtensionId,
}

/// What `Extension::new` gives for an id and data.
pub open spec fn new_extension_outcome(id: u16, data: Seq<u8>) -> Result<(u16, Seq<u8>), NewExtensionError> {
    if id >= SECOND_RANGE_PTYPE {
        Err(NewExtensionError::IncorrectExtensionId)
    } else if id < MAX_MANDATORY_VAL_PTYPE {
        Ok((id, data))
    } else if hlen_data_len(hlen_of(id)) != Some(data.len()) {
        Err(NewExtensionError::IdAndVecSizeNotMatchingError)
    } else {
        Ok((id, data))
    }
}

impl View for Extension {
    type V = (u16, Seq<u8>);

    open spec fn view(&self) -> (u16, Seq<u8>) {
        (self.id, self.data.bytes())
    }
}

impl Extension {
    /// Its data is of the form that its id gives.
    pub open spec fn wf(self) -> bool {
        &&& self.id < SECOND_RANGE_PTYPE
        &&& (self.id < MAX_MANDATORY_VAL_PTYPE <==> self.data is MandatoryData)
        &&& self.id >= MAX_MANDATORY_VAL_PTYPE ==> hlen_data_len(hlen_of(self.id)) == Some(
            self.data.bytes().len(),
        )
    }

    pub open spec fn spec_id(self) -> u16 {
        self.id
    }

    pub open spec fn spec_data(self) -> ExtensionData {
        self.data
    }

    /// Length on the wire: the id and the data.
    pub open spec fn spec_len(self) -> nat {
        2 + self.data.bytes().len()
    }

    #[allow(clippy::len_without_is_empty)]
    /// Length on the wire: the id and the data.
    pub fn len(&self) -> (r: usize)
        requires
            self.spec_len() <= usize::MAX,
        ensures
            r == self.spec_len(),
    {
        match &self.data {
            ExtensionData::Data2(_) => 2 + PROTOCOL_LEN,
            ExtensionData::Data4(_) => 4 + PROTOCOL_LEN,
            ExtensionData::Data6(_) => 6 + PROTOCOL_LEN,
            ExtensionData::Data8(_) => 8 + PROTOCOL_LEN,
            ExtensionData::NoData => PROTOCOL_LEN,
            ExtensionData::MandatoryData(data) => PROTOCOL_LEN + data.len(),
        }
    }

    /// Builds an extension, checking that the data's length matches the id.
    pub fn new(id: u16, data: &[u8]) -> (r: Result<Self, NewExtensionError>)
        ensures
            match r {
                Ok(e) => new_extension_outcome(id, data@) == Ok::<(u16, Seq<u8>), NewExtensionError>(e@) && e.wf(),
                Err(err) => new_extension_outcome(id, data@) == Err::<(u16, Seq<u8>), NewExtensionError>(err),
            },
    {
        if id >= SECOND_RANGE_PTYPE {
            return Err(NewExtensionError::IncorrectExtensionId);
        }
        if id < MAX_MANDATORY_VAL_PTYPE {
            return Ok(Extension { id, data: ExtensionData::MandatoryData(slice_to_vec(data)) });
        }
        assert(1 <= (id >> 8u16) && (id >> 8u16) <= 5) by (bit_vector)
            requires
                0x100u16 <= id && id < 0x600u16,
        ;
        let data_size_from_id = optionnal_extension_data_size_from_hlen((id >> 8u16) as u8);
        let size = match data_size_from_id {
            Ok(size) => size,
            Err(_) => {
                return Err(NewExtensionError::IncorrectExtensionId);
            },
        };
        if size != data.len() {
            return Err(NewExtensionError::IdAndVecSizeNotMatchingError);
        }
        let ext_data = if size == 0 {
            ExtensionData::NoData
        } else if size == 2 {
            ExtensionData::Data2([data[0], data[1]])
        } else if size == 4 {
            ExtensionData::Data4([data[0], data[1], data[2], data[3]])
        } else if size == 6 {
            ExtensionData::Data6([data[0], data[1], data[2], data[3], data[4], data[5]])
        } else {
            ExtensionData::Data8([data[0], data[1], data[2], data[3], data[4], data[5], data[6], data[7]])
        };
        assert(ext_data.bytes() =~= data@);
        Ok(Extension { id, data: ext_data })
    }

    pub fn id(&self) -> (r: ExtID)
        ensures
            r == self.id,
    {
        self.id
    }

    pub fn data(&self) -> (r: &ExtensionData)
        ensures
            *r == self.data,
    {
        &self.data
    }

    /// A copy of the extension.
    pub fn duplicate(&self) -> (r: Extension)
        ensures
            r@ == self@,
            r.id == self.id,
            self.wf() ==> r.wf(),
            self.data is MandatoryData <==> r.data is MandatoryData,
    {
        let data = match &self.data {
            ExtensionData::Data2(b) => ExtensionData::Data2(*b),
            ExtensionData::Data4(b) => ExtensionData::Data4(*b),
            ExtensionData::Data6(b) => ExtensionData::Data6(*b),
            ExtensionData::Data8(b) => ExtensionData::Data8(*b),
            ExtensionData::NoData => ExtensionData::NoData,
            ExtensionData::MandatoryData(v) => ExtensionData::MandatoryData(slice_to_vec(v.as_slice())),
        };
        Extension { id: self.id, data }
    }
}

/// What the registry knows of a mandatory extension id.
///
/// A final extension takes the place of the protocol type and ends the
/// chain; a non-final one is followed by another id. The number is the length
/// of the extension's data.
#[derive(PartialEq, Eq, Debug, Clone, Copy, Structural)]
pub enum MandatoryHeaderExt {
    Final(u8),
    NonFinal(u8),
    Unknown,
}

/// The receiver's registry of the mandatory extensions it knows.
pub trait MandatoryHeaderExtensionManager {
    /// What the registry answers for `id`.
    spec fn spec_known(&self, id: u16) -> MandatoryHeaderExt;

    /// For a known mandatory extension, whether it is final and its data
    /// length; `Unknown` otherwise.
    fn is_mandatory_header_id_known(&self, id: u16) -> (r: MandatoryHeaderExt)
        ensures
            r == self.spec_known(id),
    ;
}

/// A registry that knows no mandatory extension: a packet holding one is
/// dropped.
#[derive(Copy, Clone)]
pub struct SimpleMandatoryExtensionHeaderManager {}

impl MandatoryHeaderExtensionManager for SimpleMandatoryExtensionHeaderManager {
    open spec fn spec_known(&self, id: u16) -> MandatoryHeaderExt {
        MandatoryHeaderExt::Unknown
    }

    fn is_mandatory_header_id_known(&self, _id: u16) -> (r: MandatoryHeaderExt) {
        MandatoryHeaderExt::Unknown
    }
}

/// The registry of DVB-RCS2 signalling: it knows the final extensions 0x0081
/// (Network Clock Reference) and 0x0082 (internal M&C signalling), both
/// without data.
#[derive(Copy, Clone)]
pub struct SignalisationMandatoryExtensionHeaderManager {}

impl MandatoryHeaderExtensionManager for SignalisationMandatoryExtensionHeaderManager {
    open spec fn spec_known(&self, id: u16) -> MandatoryHeaderExt {
        if id == INTERNAL_SIGNALING_PROTOCOL_ID || id == NCR_PROTOCOL_ID {
            MandatoryHeaderExt::Final(0)
        } else {
            MandatoryHeaderExt::Unknown
        }
    }

    fn is_mandatory_header_id_known(&self, id: u16) -> (r: MandatoryHeaderExt) {
        if id == INTERNAL_SIGNALING_PROTOCOL_ID || id == NCR_PROTOCOL_ID {
            MandatoryHeaderExt::Final(0)
        } else {
            MandatoryHeaderExt::Unknown
        }
    }
}

/// Why the data length of an extension cannot be had from its H-LEN.
#[derive(Debug, PartialEq, Eq, Clone, Copy, Structural)]
pub enum HlenError {
    /// H-LEN 0: a mandatory extension, whose length the registry gives.
    MandatoryHeader,
    /// H-LEN above 5: a protocol type, not an extension.
    UnknownHLen,
}

/// Data length of an optional extension from its H-LEN.
pub fn optionnal_extension_data_size_from_hlen(h_len: u8) -> (r: Result<usize, HlenError>)
    ensures
        match r {
            Ok(n) => hlen_data_len(h_len as u16) == Some(n as nat),
            Err(e) => hlen_data_len(h_len as u16) is None && (e == HlenError::MandatoryHeader <==> h_len == 0),
        },
{
    match h_len {
        0 => Err(HlenError::MandatoryHeader),
        1 => Ok(0),
        2 => Ok(2),
        3 => Ok(4),
        4 => Ok(6),
        5 => Ok(8),
        _ => Err(HlenError::UnknownHLen),
    }
}

/// Data length of extension `id` (below 1536) and whether it ends the chain;
/// `None` for a mandatory extension that the registry does not know.
pub open spec fn ext_shape<M: MandatoryHeaderExtensionManager>(m: M, id: u16) -> Option<(nat, bool)> {
    if id < MAX_MANDATORY_VAL_PTYPE {
        match m.spec_known(id) {
            MandatoryHeaderExt::Final(n) => Some((n as nat, true)),
            MandatoryHeaderExt::NonFinal(n) => Some((n as nat, false)),
            MandatoryHeaderExt::Unknown => None,
        }
    } else {
        Some((hlen_data_len(hlen_of(id)).unwrap(), false))
    }
}

/// Why an extension chain cannot be read.
#[derive(PartialEq, Eq, Clone, Copy, Debug, Structural)]
pub enum ExtensionHeaderError {
    /// The chain holds a mandatory extension that the registry does not know.
    UnknownMandatoryHeader,
    /// The bytes end inside the chain.
    BufferTooSmall,
}

impl ExtensionHeaderError {
    pub fn to_str(&self) -> (r: &'static str)
        ensures
            self is UnknownMandatoryHeader ==> r@ == "Header contains unknown Mandatory Header Extension "@,
            self is BufferTooSmall ==> r@ == "Buffer too small to contain the promised header extension(s)"@,
    {
        match self {
            Self::UnknownMandatoryHeader => "Header contains unknown Mandatory Header Extension ",
            Self::BufferTooSmall => "Buffer too small to contain the promised header extension(s)",
        }
    }
}

/// A chain as read: the extensions, the protocol type that ends it (or the
/// id of the final mandatory extension), and the bytes it took after the
/// first id.
pub struct ChainRead {
    pub extensions: Seq<(u16, Seq<u8>)>,
    pub protocol_type: u16,
    pub len: nat,
}

/// `exts` put before the extensions of a chain read.
pub open spec fn prepend_exts(exts: Seq<(u16, Seq<u8>)>, r: Result<ChainRead, ExtensionHeaderError>) -> Result<ChainRead, ExtensionHeaderError> {
    match r {
        Ok(c) => Ok(ChainRead { extensions: exts + c.extensions, protocol_type: c.protocol_type, len: c.len }),
        Err(e) => Err(e),
    }
}

proof fn lemma_prepend_exts(a: Seq<(u16, Seq<u8>)>, b: Seq<(u16, Seq<u8>)>, r: Result<ChainRead, ExtensionHeaderError>)
    ensures
        prepend_exts(a, prepend_exts(b, r)) == prepend_exts(a + b, r),
{
    if let Ok(c) = r {
        assert(a + (b + c.extensions) =~= (a + b) + c.extensions);
    }
}

/// The chain in `buf` whose current id is `id`, its data starting at `off`.
pub open spec fn read_chain<M: MandatoryHeaderExtensionManager>(m: M, buf: Seq<u8>, id: u16, off: nat) -> Result<ChainRead, ExtensionHeaderError>
    decreases buf.len() - off,
{
    if id >= SECOND_RANGE_PTYPE {
        Ok(ChainRead { extensions: Seq::empty(), protocol_type: id, len: off })
    } else {
        match ext_shape(m, id) {
            None => Err(ExtensionHeaderError::UnknownMandatoryHeader),
            Some((n, fin)) => {
                if off + n > buf.len() {
                    Err(ExtensionHeaderError::BufferTooSmall)
                } else if fin {
                    Ok(ChainRead { extensions: seq![(id, buf.subrange(off as int, (off + n) as int))], protocol_type: id, len: off + n })
                } else if off + n + 2 > buf.len() {
                    Err(ExtensionHeaderError::BufferTooSmall)
                } else {
                    prepend_exts(
                        seq![(id, buf.subrange(off as int, (off + n) as int))],
                        read_chain(m, buf, read_be16(buf, (off + n) as int), off + n + 2),
                    )
                }
            },
        }
    }
}

/// The chain after the label of a packet whose protocol-type field holds
/// `first_ext_id`; `buf` starts after the label.
pub open spec fn chain_outcome<M: MandatoryHeaderExtensionManager>(m: M, buf: Seq<u8>, first_ext_id: u16) -> Result<ChainRead, ExtensionHeaderError> {
    read_chain(m, buf, first_ext_id, 0)
}

/// The views of a list of extensions.
pub open spec fn ext_views(v: Seq<Extension>) -> Seq<(u16, Seq<u8>)> {
    v.map_values(|e: Extension| e@)
}

/// Extension bytes between the label and the protocol type: the data of
/// each extension, each but the first preceded by its id.
pub open spec fn ext_mid(e: Seq<(u16, Seq<u8>)>) -> Seq<u8>
    decreases e.len(),
{
    if e.len() == 0 {
        Seq::empty()
    } else if e.len() == 1 {
        e[0].1
    } else {
        ext_mid(e.drop_last()) + be16(e.last().0) + e.last().1
    }
}

proof fn lemma_ext_mid_front(e: Seq<(u16, Seq<u8>)>)
    requires
        e.len() >= 2,
    ensures
        ext_mid(e) == e[0].1 + be16(e[1].0) + ext_mid(e.drop_first()),
    decreases e.len(),
{
    if e.len() == 2 {
        assert(e.drop_last().len() == 1);
        assert(e.drop_last()[0] == e[0]);
        assert(ext_mid(e.drop_last()) == e[0].1);
        assert(e.last() == e[1]);
        assert(e.drop_first().len() == 1);
        assert(e.drop_first()[0] == e[1]);
        assert(ext_mid(e.drop_first()) == e[1].1);
    } else {
        let d = e.drop_last();
        let f = e.drop_first();
        lemma_ext_mid_front(d);
        assert(f.drop_last() =~= d.drop_first());
        assert(d[0] == e[0] && d[1] == e[1]);
        assert(f.last() == e.last());
        assert(ext_mid(f) == ext_mid(f.drop_last()) + be16(f.last().0) + f.last().1);
        assert(ext_mid(e) == ext_mid(d) + be16(e.last().0) + e.last().1);
        assert(ext_mid(e) =~= e[0].1 + be16(e[1].0) + ext_mid(f));
    }
}

/// An extension that the registry reads back with its own data length and
/// that does not end the chain.
pub open spec fn is_chain_link<M: MandatoryHeaderExtensionManager>(m: M, x: (u16, Seq<u8>)) -> bool {
    &&& x.0 < SECOND_RANGE_PTYPE
    &&& ext_shape(m, x.0) == Some((x.1.len(), false))
}

proof fn lemma_read_written_chain<M: MandatoryHeaderExtensionManager>(m: M, e: Seq<(u16, Seq<u8>)>, ptype: u16, buf: Seq<u8>, off: nat)
    requires
        e.len() >= 1,
        ptype >= SECOND_RANGE_PTYPE,
        forall|i: int| 0 <= i < e.len() ==> is_chain_link(m, #[trigger] e[i]),
        off + ext_mid(e).len() + 2 <= buf.len(),
        buf.subrange(off as int, (off + ext_mid(e).len() + 2) as int) == ext_mid(e) + be16(ptype),
    ensures
        read_chain(m, buf, e[0].0, off) == Ok::<ChainRead, ExtensionHeaderError>(
            ChainRead { extensions: e, protocol_type: ptype, len: off + ext_mid(e).len() + 2 },
        ),
    decreases e.len(),
{
    let n: int = e[0].1.len() as int;
    let o: int = off as int;
    assert(is_chain_link(m, e[0]));
    let w = ext_mid(e) + be16(ptype);
    if e.len() == 1 {
        assert(ext_mid(e) == e[0].1);
        assert(buf.subrange(o, o + n) =~= w.subrange(0, n));
        assert(buf.subrange(o + n, o + n + 2) =~= w.subrange(n, n + 2));
        assert(w.subrange(n, n + 2) =~= be16(ptype));
        lemma_read_be16(ptype, buf, o + n);
        assert(read_chain(m, buf, ptype, (o + n + 2) as nat) == Ok::<ChainRead, ExtensionHeaderError>(
            ChainRead { extensions: Seq::empty(), protocol_type: ptype, len: (o + n + 2) as nat }));
        assert(w.subrange(0, n) =~= e[0].1);
        assert(read_chain(m, buf, e[0].0, off) == prepend_exts(seq![(e[0].0, e[0].1)], read_chain(m, buf, ptype, (o + n + 2) as nat)));
        assert(seq![(e[0].0, e[0].1)] + Seq::<(u16, Seq<u8>)>::empty() =~= e);
    } else {
        let tail = e.drop_first();
        lemma_ext_mid_front(e);
        let off2: nat = (o + n + 2) as nat;
        assert(buf.subrange(o, o + n) =~= w.subrange(0, n));
        assert(buf.subrange(o + n, o + n + 2) =~= w.subrange(n, n + 2));
        assert(w.subrange(n, n + 2) =~= be16(e[1].0));
        lemma_read_be16(e[1].0, buf, o + n);
        assert(buf.subrange(off2 as int, (off2 + ext_mid(tail).len() + 2) as int) =~= w.subrange(n + 2, w.len() as int));
        assert(w.subrange(n + 2, w.len() as int) =~= ext_mid(tail) + be16(ptype));
        assert forall|i: int| 0 <= i < tail.len() implies is_chain_link(m, #[trigger] tail[i]) by {
            assert(tail[i] == e[i + 1]);
        }
        lemma_read_written_chain(m, tail, ptype, buf, off2);
        assert(w.subrange(0, n) =~= e[0].1);
        assert(read_chain(m, buf, e[0].0, off) == prepend_exts(seq![(e[0].0, e[0].1)], read_chain(m, buf, e[1].0, off2)));
        assert(tail[0] == e[1]);
        assert(seq![(e[0].0, e[0].1)] + tail =~= e);
    }
}

/// The chain that encapsulation writes reads back: extensions that the
/// registry knows with their data lengths (none of them final), written by
/// `ext_mid` and followed by a protocol type and any bytes, are read as
/// those extensions and that protocol type.
pub proof fn lemma_chain_round_trip<M: MandatoryHeaderExtensionManager>(m: M, e: Seq<(u16, Seq<u8>)>, ptype: u16, rest: Seq<u8>)
    requires
        e.len() >= 1,
        ptype >= SECOND_RANGE_PTYPE,
        forall|i: int| 0 <= i < e.len() ==> is_chain_link(m, #[trigger] e[i]),
    ensures
        chain_outcome(m, ext_mid(e) + be16(ptype) + rest, e[0].0) == Ok::<ChainRead, ExtensionHeaderError>(
            ChainRead { extensions: e, protocol_type: ptype, len: ext_mid(e).len() + 2 },
        ),
{
    let buf = ext_mid(e) + be16(ptype) + rest;
    assert(buf.subrange(0, (ext_mid(e).len() + 2) as int) =~= ext_mid(e) + be16(ptype));
    lemma_read_written_chain(m, e, ptype, buf, 0);
}

proof fn lemma_read_written_final_chain<M: MandatoryHeaderExtensionManager>(m: M, e: Seq<(u16, Seq<u8>)>, buf: Seq<u8>, off: nat)
    requires
        e.len() >= 1,
        forall|i: int| 0 <= i < e.len() - 1 ==> is_chain_link(m, #[trigger] e[i]),
        e.last().0 < MAX_MANDATORY_VAL_PTYPE,
        ext_shape(m, e.last().0) == Some((e.last().1.len(), true)),
        off + ext_mid(e).len() <= buf.len(),
        buf.subrange(off as int, (off + ext_mid(e).len()) as int) == ext_mid(e),
    ensures
        read_chain(m, buf, e[0].0, off) == Ok::<ChainRead, ExtensionHeaderError>(
            ChainRead { extensions: e, protocol_type: e.last().0, len: off + ext_mid(e).len() },
        ),
    decreases e.len(),
{
    let n: int = e[0].1.len() as int;
    let o: int = off as int;
    let w = ext_mid(e);
    if e.len() == 1 {
        assert(ext_mid(e) == e[0].1);
        assert(buf.subrange(o, o + n) =~= w);
        assert(seq![(e[0].0, e[0].1)] =~= e);
    } else {
        let tail = e.drop_first();
        lemma_ext_mid_front(e);
        assert(is_chain_link(m, e[0]));
        let off2: nat = (o + n + 2) as nat;
        assert(buf.subrange(o, o + n) =~= w.subrange(0, n));
        assert(w.subrange(0, n) =~= e[0].1);
        assert(buf.subrange(o + n, o + n + 2) =~= w.subrange(n, n + 2));
        assert(w.subrange(n, n + 2) =~= be16(e[1].0));
        lemma_read_be16(e[1].0, buf, o + n);
        assert(buf.subrange(off2 as int, (off2 + ext_mid(tail).len()) as int) =~= w.subrange(n + 2, w.len() as int));
        assert(w.subrange(n + 2, w.len() as int) =~= ext_mid(tail));
        assert forall|i: int| 0 <= i < tail.len() - 1 implies is_chain_link(m, #[trigger] tail[i]) by {
            assert(tail[i] == e[i + 1]);
        }
        assert(tail.last() == e.last());
        lemma_read_written_final_chain(m, tail, buf, off2);
        assert(read_chain(m, buf, e[0].0, off) == prepend_exts(seq![(e[0].0, e[0].1)], read_chain(m, buf, e[1].0, off2)));
        assert(tail[0] == e[1]);
        assert(seq![(e[0].0, e[0].1)] + tail =~= e);
    }
}

/// The same with a final mandatory extension: when the last extension is
/// one that the registry knows as final, with its data length, encapsulation
/// writes no protocol type after it, and the chain reads back as those
/// extensions with that extension's id as the protocol type.
pub proof fn lemma_final_chain_round_trip<M: MandatoryHeaderExtensionManager>(m: M, e: Seq<(u16, Seq<u8>)>, rest: Seq<u8>)
    requires
        e.len() >= 1,
        forall|i: int| 0 <= i < e.len() - 1 ==> is_chain_link(m, #[trigger] e[i]),
        e.last().0 < MAX_MANDATORY_VAL_PTYPE,
        ext_shape(m, e.last().0) == Some((e.last().1.len(), true)),
    ensures
        chain_outcome(m, ext_mid(e) + rest, e[0].0) == Ok::<ChainRead, ExtensionHeaderError>(
            ChainRead { extensions: e, protocol_type: e.last().0, len: ext_mid(e).len() },
        ),
{
    let buf = ext_mid(e) + rest;
    assert(buf.subrange(0, ext_mid(e).len() as int) =~= ext_mid(e));
    lemma_read_written_final_chain(m, e, buf, 0);
}

/// A mandatory extension that the registry does not know stops the read,
/// whatever follows it.
pub proof fn lemma_unknown_mandatory_rejected<M: MandatoryHeaderExtensionManager>(m: M, id: u16, buf: Seq<u8>)
    requires
        id < MAX_MANDATORY_VAL_PTYPE,
        m.spec_known(id) == MandatoryHeaderExt::Unknown,
    ensures
        chain_outcome(m, buf, id) == Err::<ChainRead, ExtensionHeaderError>(ExtensionHeaderError::UnknownMandatoryHeader),
{
}

/// Result of reading an extension chain.
pub struct IterateOverExtensionHeaderStatus {
    pub extensions: Vec<Extension>,
    pub protocol_type: u16,
    /// Bytes of the chain after the first id: data, further ids and the
    /// protocol type.
    pub header_ext_len: usize,
}

/// Reads the extension chain in `pdu` (the bytes after the label), whose
/// first id `first_ext_id` stood in the protocol-type field.
pub fn iterate_over_extension_header<M: MandatoryHeaderExtensionManager>(
    pdu: &[u8],
    mandatory_extension_header_manager: &M,
    first_ext_id: u16,
) -> (r: Result<IterateOverExtensionHeaderStatus, ExtensionHeaderError>)
    ensures
        match (r, chain_outcome(*mandatory_extension_header_manager, pdu@, first_ext_id)) {
            (Ok(s), Ok(c)) => ext_views(s.extensions@) == c.extensions && s.protocol_type == c.protocol_type
                && s.header_ext_len == c.len && c.len <= pdu@.len()
                && forall|i: int| 0 <= i < s.extensions@.len() ==> (#[trigger] s.extensions@[i]).wf(),
            (Err(e), Err(f)) => e == f,
            _ => false,
        },
{
    let ghost m = *mandatory_extension_header_manager;
    let pdu_len = pdu.len();
    let mut offset: usize = 0;
    let mut extensions: Vec<Extension> = Vec::new();
    let mut protocol_type: u16 = first_ext_id;
    let mut done = false;
    while !done && protocol_type < SECOND_RANGE_PTYPE
        invariant
            m == *mandatory_extension_header_manager,
            pdu_len == pdu@.len(),
            offset <= pdu_len,
            done ==> protocol_type < SECOND_RANGE_PTYPE,
            forall|i: int| 0 <= i < extensions@.len() ==> (#[trigger] extensions@[i]).wf(),
            done ==> chain_outcome(m, pdu@, first_ext_id) == Ok::<ChainRead, ExtensionHeaderError>(
                ChainRead { extensions: ext_views(extensions@), protocol_type, len: offset as nat }),
            !done ==> chain_outcome(m, pdu@, first_ext_id) == prepend_exts(ext_views(extensions@), read_chain(m, pdu@, protocol_type, offset as nat)),
        decreases pdu_len - offset + (if done { 0int } else { 1int }),
    {
        let size: usize;
        let fin: bool;
        if protocol_type < MAX_MANDATORY_VAL_PTYPE {
            match mandatory_extension_header_manager.is_mandatory_header_id_known(protocol_type) {
                MandatoryHeaderExt::Unknown => {
                    return Err(ExtensionHeaderError::UnknownMandatoryHeader);
                },
                MandatoryHeaderExt::Final(n) => {
                    size = n as usize;
                    fin = true;
                },
                MandatoryHeaderExt::NonFinal(n) => {
                    size = n as usize;
                    fin = false;
                },
            }
        } else {
            assert(1 <= (protocol_type >> 8u16) && (protocol_type >> 8u16) <= 5) by (bit_vector)
                requires
                    0x100u16 <= protocol_type && protocol_type < 0x600u16,
            ;
            assert(((protocol_type >> 8u16) as u8) as u16 == protocol_type >> 8u16);
            match optionnal_extension_data_size_from_hlen((protocol_type >> 8u16) as u8) {
                Ok(n) => {
                    size = n;
                    fin = false;
                },
                Err(_) => {
                    return Err(ExtensionHeaderError::BufferTooSmall);
                },
            }
        }
        if size > pdu_len - offset {
            return Err(ExtensionHeaderError::BufferTooSmall);
        }
        let data = slice_subrange(pdu, offset, offset + size);
        let extension = match Extension::new(protocol_type, data) {
            Ok(extension) => extension,
            Err(_) => {
                return Err(ExtensionHeaderError::BufferTooSmall);
            },
        };
        let ghost before = extensions@;
        let ghost item = (protocol_type, pdu@.subrange(offset as int, offset + size));
        assert(ext_shape(m, protocol_type) == Some((size as nat, fin)));
        extensions.push(extension);
        proof {
            assert(ext_views(extensions@) =~= ext_views(before) + seq![item]);
        }
        let ghost old_offset = offset;
        offset = offset + size;
        if fin {
            done = true;
            proof {
                assert(ext_views(before) + seq![item] == ext_views(extensions@));
            }
        } else {
            if pdu_len - offset < PROTOCOL_LEN {
                return Err(ExtensionHeaderError::BufferTooSmall);
            }
            let ghost id = protocol_type;
            protocol_type = read_u16_be(pdu, offset);
            offset = offset + PROTOCOL_LEN;
            proof {
                assert(read_chain(m, pdu@, id, old_offset as nat) == prepend_exts(seq![item], read_chain(m, pdu@, protocol_type, offset as nat)));
                lemma_prepend_exts(ext_views(before), seq![item], read_chain(m, pdu@, protocol_type, offset as nat));
            }
        }
    }
    Ok(IterateOverExtensionHeaderStatus { extensions, protocol_type, header_ext_len: offset })
}

} // verus!
