//! The payloads of the peer wire messages and how each is laid out in bytes.

use vstd::prelude::*;

verus! {

/// The four bytes of `value`, most significant first.
pub open spec fn be32(value: u32) -> Seq<u8> {
    seq![
        (value / 0x100_0000) as u8,
        (value / 0x1_0000 % 256) as u8,
        (value / 0x100 % 256) as u8,
        (value % 256) as u8,
    ]
}

/// The number whose big-endian bytes are the four bytes of `bytes` from `at` on.
pub open spec fn from_be32(bytes: Seq<u8>, at: int) -> u32 {
    (bytes[at] * 0x100_0000 + bytes[at + 1] * 0x1_0000 + bytes[at + 2] * 0x100 + bytes[at
        + 3]) as u32
}

/// Reading the big-endian bytes of a number gives the number back.
pub proof fn lemma_be32_round_trip(value: u32)
    ensures
        be32(value).len() == 4,
        from_be32(be32(value), 0) == value,
{
}

/// The digits of a number written in base 256 with four digits.
proof fn lemma_base256_digits(b0: int, b1: int, b2: int, b3: int)
    requires
        0 <= b0 < 256,
        0 <= b1 < 256,
        0 <= b2 < 256,
        0 <= b3 < 256,
    ensures
        ({
            let v = b0 * 0x100_0000 + b1 * 0x1_0000 + b2 * 0x100 + b3;
            &&& 0 <= v <= 0xffff_ffff
            &&& v / 0x100_0000 == b0
            &&& v / 0x1_0000 % 256 == b1
            &&& v / 0x100 % 256 == b2
            &&& v % 256 == b3
        }),
{
    let v = b0 * 0x100_0000 + b1 * 0x1_0000 + b2 * 0x100 + b3;
    let t2 = b0 * 0x1_0000 + b1 * 0x100 + b2;
    let t1 = b0 * 0x100 + b1;
    assert(v == t2 * 256 + b3);
    assert(t2 == t1 * 256 + b2);
    assert(t1 == b0 * 256 + b1);
    assert(v / 256 == t2 && v % 256 == b3);
    assert(t2 / 256 == t1 && t2 % 256 == b2);
    assert(t1 / 256 == b0 && t1 % 256 == b1);
    assert(v / 0x1_0000 == (v / 256) / 256);
    assert(v / 0x100_0000 == (v / 0x1_0000) / 256);
}

/// Writing the number read from four bytes gives the four bytes back.
pub proof fn lemma_be32_bytes_round_trip(bytes: Seq<u8>, at: int)
    requires
        0 <= at,
        at + 4 <= bytes.len(),
    ensures
        be32(from_be32(bytes, at)) == bytes.subrange(at, at + 4),
{
    lemma_base256_digits(
        bytes[at] as int,
        bytes[at + 1] as int,
        bytes[at + 2] as int,
        bytes[at + 3] as int,
    );
    assert(be32(from_be32(bytes, at)) =~= bytes.subrange(at, at + 4));
}

/// Appends the big-endian bytes of `value` to `out`.
pub fn push_be32(out: &mut Vec<u8>, value: u32)
    ensures
        final(out)@ == old(out)@ + be32(value),
{
    out.push((value / 0x100_0000) as u8);
    out.push((value / 0x1_0000 % 256) as u8);
    out.push((value / 0x100 % 256) as u8);
    out.push((value % 256) as u8);
    assert(out@ =~= old(out)@ + be32(value));
}

/// Reads a big-endian number from the four bytes of `bytes` that begin at `at`.
pub fn read_be32(bytes: &[u8], at: usize) -> (value: u32)
    requires
        at + 4 <= bytes@.len(),
    ensures
        value == from_be32(bytes@, at as int),
{
    let b0: u32 = bytes[at] as u32;
    let b1: u32 = bytes[at + 1] as u32;
    let b2: u32 = bytes[at + 2] as u32;
    let b3: u32 = bytes[at + 3] as u32;
    b0 * 0x100_0000 + b1 * 0x1_0000 + b2 * 0x100 + b3
}

/// A payload of the peer wire protocol: a value that is written to bytes in one
/// way and read back from them.
pub trait Payload: Sized + View {
    /// The bytes that stand for `value`, without length prefix and message id.
    spec fn spec_to_be_bytes(value: Self::V) -> Seq<u8>;

    /// Whether `bytes` can be read as a payload of this kind.
    spec fn readable(bytes: Seq<u8>) -> bool;

    /// The payload that `bytes` stand for.
    spec fn spec_from_be_bytes(bytes: Seq<u8>) -> Self::V;

    /// Reads a payload from the bytes that follow the message id.
    fn from_be_bytes(payload: &[u8]) -> (value: Self)
        requires
            Self::readable(payload@),
        ensures
            value@ == Self::spec_from_be_bytes(payload@),
    ;

    /// The bytes in big-endian order, without length prefix and message id.
    fn to_be_bytes(&self) -> (bytes: Vec<u8>)
        ensures
            bytes@ == Self::spec_to_be_bytes(self@),
    ;
}

/// A message without payload.
#[derive(Debug, Clone, Copy, PartialEq)]
pub struct NoPayload;

impl View for NoPayload {
    type V = NoPayload;

    open spec fn view(&self) -> NoPayload {
        *self
    }
}

impl Payload for NoPayload {
    open spec fn spec_to_be_bytes(value: NoPayload) -> Seq<u8> {
        Seq::empty()
    }

    open spec fn readable(bytes: Seq<u8>) -> bool {
        true
    }

    open spec fn spec_from_be_bytes(bytes: Seq<u8>) -> NoPayload {
        NoPayload
    }

    fn from_be_bytes(_payload: &[u8]) -> (value: Self) {
        NoPayload
    }

    fn to_be_bytes(&self) -> (bytes: Vec<u8>) {
        Vec::new()
    }
}

/// `have`: the sender has finished a piece and checked its hash.
#[derive(Debug, Clone, Copy, PartialEq)]
pub struct HavePayload {
    /// The index of that piece.
    pub piece_index: u32,
}

impl View for HavePayload {
    type V = HavePayload;

    open spec fn view(&self) -> HavePayload {
        *self
    }
}

impl Payload for HavePayload {
    open spec fn spec_to_be_bytes(value: HavePayload) -> Seq<u8> {
        be32(value.piece_index)
    }

    open spec fn readable(bytes: Seq<u8>) -> bool {
        bytes.len() >= 4
    }

    open spec fn spec_from_be_bytes(bytes: Seq<u8>) -> HavePayload {
        HavePayload { piece_index: from_be32(bytes, 0) }
    }

    fn from_be_bytes(payload: &[u8]) -> (value: Self) {
        HavePayload { piece_index: read_be32(payload, 0) }
    }

    fn to_be_bytes(&self) -> (bytes: Vec<u8>) {
        let mut bytes: Vec<u8> = Vec::new();
        push_be32(&mut bytes, self.piece_index);
        bytes
    }
}

/// `request` and `cancel`: a block of a piece.
#[derive(Debug, Clone, Copy, PartialEq)]
pub struct RequestPiecePayload {
    /// The index of the piece.
    pub index: u32,
    /// Where the block begins in the piece.
    pub begin: u32,
    /// The length of the block.
    pub length: u32,
}

impl RequestPiecePayload {
    pub fn new(index: u32, begin: u32, length: u32) -> (request: Self)
        ensures
            request == (RequestPiecePayload { index, begin, length }),
    {
        Self { index, begin, length }
    }
}

impl View for RequestPiecePayload {
    type V = RequestPiecePayload;

    open spec fn view(&self) -> RequestPiecePayload {
        *self
    }
}

impl Payload for RequestPiecePayload {
    open spec fn spec_to_be_bytes(value: RequestPiecePayload) -> Seq<u8> {
        be32(value.index) + be32(value.begin) + be32(value.length)
    }

    open spec fn readable(bytes: Seq<u8>) -> bool {
        bytes.len() >= 12
    }

    open spec fn spec_from_be_bytes(bytes: Seq<u8>) -> RequestPiecePayload {
        RequestPiecePayload {
            index: from_be32(bytes, 0),
            begin: from_be32(bytes, 4),
            length: from_be32(bytes, 8),
        }
    }

    fn from_be_bytes(payload: &[u8]) -> (value: Self) {
        RequestPiecePayload {
            index: read_be32(payload, 0),
            begin: read_be32(payload, 4),
            length: read_be32(payload, 8),
        }
    }

    fn to_be_bytes(&self) -> (bytes: Vec<u8>) {
        let mut bytes: Vec<u8> = Vec::new();
        push_be32(&mut bytes, self.index);
        push_be32(&mut bytes, self.begin);
        push_be32(&mut bytes, self.length);
        bytes
    }
}

/// `piece`: the bytes of a block.
#[derive(Debug, Clone, PartialEq)]
pub struct ResponsePiecePayload {
    /// The index of the piece.
    pub index: u32,
    /// Where the block begins in the piece.
    pub begin: u32,
    /// The bytes of the block.
    pub block: Vec<u8>,
}

/// What a `piece` message says.
pub ghost struct BlockView {
    pub index: u32,
    pub begin: u32,
    pub block: Seq<u8>,
}

impl View for ResponsePiecePayload {
    type V = BlockView;

    open spec fn view(&self) -> BlockView {
        BlockView { index: self.index, begin: self.begin, block: self.block@ }
    }
}

impl Payload for ResponsePiecePayload {
    open spec fn spec_to_be_bytes(value: BlockView) -> Seq<u8> {
        be32(value.index) + be32(value.begin) + value.block
    }

    open spec fn readable(bytes: Seq<u8>) -> bool {
        bytes.len() >= 8
    }

    open spec fn spec_from_be_bytes(bytes: Seq<u8>) -> BlockView {
        BlockView {
            index: from_be32(bytes, 0),
            begin: from_be32(bytes, 4),
            block: bytes.subrange(8, bytes.len() as int),
        }
    }

    fn from_be_bytes(payload: &[u8]) -> (value: Self) {
        let index: u32 = read_be32(payload, 0);
        let begin: u32 = read_be32(payload, 4);
        let mut block: Vec<u8> = Vec::new();
        let mut i: usize = 8;
        while i < payload.len()
            invariant
                8 <= i <= payload@.len(),
                block@ == payload@.subrange(8, i as int),
            decreases payload@.len() - i,
        {
            block.push(payload[i]);
            i = i + 1;
            assert(block@ =~= payload@.subrange(8, i as int));
        }
        ResponsePiecePayload { index, begin, block }
    }

    fn to_be_bytes(&self) -> (bytes: Vec<u8>) {
        let mut bytes: Vec<u8> = Vec::new();
        push_be32(&mut bytes, self.index);
        push_be32(&mut bytes, self.begin);
        bytes.extend_from_slice(self.block.as_slice());
        bytes
    }
}

/// `extended`: a message of the extension protocol.
#[derive(Debug, Clone, PartialEq)]
pub struct BasicExtensionPayload {
    /// The id that the receiver gave the extension, 0 for the handshake.
    pub extension_id: u8,
    /// What the extension makes of it.
    pub data: Vec<u8>,
}

/// What an `extended` message says.
pub ghost struct ExtendedView {
    pub extension_id: u8,
    pub data: Seq<u8>,
}

impl View for BasicExtensionPayload {
    type V = ExtendedView;

    open spec fn view(&self) -> ExtendedView {
        ExtendedView { extension_id: self.extension_id, data: self.data@ }
    }
}

impl Payload for BasicExtensionPayload {
    open spec fn spec_to_be_bytes(value: ExtendedView) -> Seq<u8> {
        seq![value.extension_id] + value.data
    }

    open spec fn readable(bytes: Seq<u8>) -> bool {
        bytes.len() >= 1
    }

    open spec fn spec_from_be_bytes(bytes: Seq<u8>) -> ExtendedView {
        ExtendedView { extension_id: bytes[0], data: bytes.subrange(1, bytes.len() as int) }
    }

    fn from_be_bytes(payload: &[u8]) -> (value: Self) {
        let extension_id: u8 = payload[0];
        let mut data: Vec<u8> = Vec::new();
        let mut i: usize = 1;
        while i < payload.len()
            invariant
                1 <= i <= payload@.len(),
                data@ == payload@.subrange(1, i as int),
            decreases payload@.len() - i,
        {
            data.push(payload[i]);
            i = i + 1;
            assert(data@ =~= payload@.subrange(1, i as int));
        }
        BasicExtensionPayload { extension_id, data }
    }

    fn to_be_bytes(&self) -> (bytes: Vec<u8>) {
        let mut bytes: Vec<u8> = Vec::new();
        bytes.push(self.extension_id);
        bytes.extend_from_slice(self.data.as_slice());
        assert(bytes@ =~= seq![self.extension_id] + self.data@);
        bytes
    }
}

/// 1 where `bits` holds `true` at `index`, 0 where it holds `false` or ends before.
pub open spec fn bit_at(bits: Seq<bool>, index: int) -> int {
    if 0 <= index < bits.len() && bits[index] {
        1
    } else {
        0
    }
}

/// The byte that packs the eight entries of `bits` from `start` on, the first of
/// them in the most significant bit. Entries past the end count as `false`.
pub open spec fn packed_byte(bits: Seq<bool>, start: int) -> u8 {
    (128 * bit_at(bits, start) + 64 * bit_at(bits, start + 1) + 32 * bit_at(bits, start + 2) + 16
        * bit_at(bits, start + 3) + 8 * bit_at(bits, start + 4) + 4 * bit_at(bits, start + 5) + 2
        * bit_at(bits, start + 6) + bit_at(bits, start + 7)) as u8
}

/// The value of bit `position` of a byte, counted from the most significant bit.
pub open spec fn bit_weight(position: int) -> int {
    if position == 0 {
        128
    } else if position == 1 {
        64
    } else if position == 2 {
        32
    } else if position == 3 {
        16
    } else if position == 4 {
        8
    } else if position == 5 {
        4
    } else if position == 6 {
        2
    } else {
        1
    }
}

/// Whether bit `position` of `byte` is set, counted from the most significant bit.
pub open spec fn bit_of_byte(byte: u8, position: int) -> bool {
    (byte as int / bit_weight(position)) % 2 == 1
}

/// The bytes that pack `bits`, eight to a byte, padded with zero bits.
pub open spec fn pack_bits(bits: Seq<bool>) -> Seq<u8> {
    Seq::new((bits.len() + 7) / 8, |i: int| packed_byte(bits, 8 * i))
}

/// The bits of `bytes`, eight for each byte.
pub open spec fn unpack_bits(bytes: Seq<u8>) -> Seq<bool> {
    Seq::new(8 * bytes.len(), |i: int| bit_of_byte(bytes[i / 8], i % 8))
}

/// Each bit of a packed byte is the entry that was packed into it.
pub proof fn lemma_bit_of_packed(bits: Seq<bool>, start: int, position: int)
    requires
        0 <= position < 8,
    ensures
        bit_of_byte(packed_byte(bits, start), position) == (bit_at(bits, start + position) == 1),
{
}

/// A byte is the sum of its bits.
pub proof fn lemma_packed_of_bits(byte: u8)
    ensures
        packed_byte(unpack_bits(seq![byte]), 0) == byte,
{
    let bits = unpack_bits(seq![byte]);
    let x = byte as int;
    assert(bits.len() == 8);
    assert forall|k: int| 0 <= k < 8 implies bits[k] == bit_of_byte(byte, k) by {
        assert(seq![byte][k / 8] == byte);
    }
    assert(bits[0] == bit_of_byte(byte, 0));
    assert(bits[1] == bit_of_byte(byte, 1));
    assert(bits[2] == bit_of_byte(byte, 2));
    assert(bits[3] == bit_of_byte(byte, 3));
    assert(bits[4] == bit_of_byte(byte, 4));
    assert(bits[5] == bit_of_byte(byte, 5));
    assert(bits[6] == bit_of_byte(byte, 6));
    assert(bits[7] == bit_of_byte(byte, 7));
    lemma_byte_is_sum_of_bits(x);
}

/// A number below 256 is the sum of its binary digits, each times its weight.
proof fn lemma_byte_is_sum_of_bits(x: int)
    requires
        0 <= x < 256,
    ensures
        x == 128 * ((x / 128) % 2) + 64 * ((x / 64) % 2) + 32 * ((x / 32) % 2) + 16 * ((x / 16)
            % 2) + 8 * ((x / 8) % 2) + 4 * ((x / 4) % 2) + 2 * ((x / 2) % 2) + x % 2,
{
    let h1 = x / 2;
    let h2 = h1 / 2;
    let h3 = h2 / 2;
    let h4 = h3 / 2;
    let h5 = h4 / 2;
    let h6 = h5 / 2;
    let h7 = h6 / 2;
    assert(h2 == x / 4);
    assert(h3 == x / 8);
    assert(h4 == x / 16);
    assert(h5 == x / 32);
    assert(h6 == x / 64);
    assert(h7 == x / 128);
    assert(x == 2 * h1 + x % 2);
    assert(h1 == 2 * h2 + h1 % 2);
    assert(h2 == 2 * h3 + h2 % 2);
    assert(h3 == 2 * h4 + h3 % 2);
    assert(h4 == 2 * h5 + h4 % 2);
    assert(h5 == 2 * h6 + h5 % 2);
    assert(h6 == 2 * h7 + h6 % 2);
    assert(h7 == h7 % 2);
}

/// Packing `bits` and unpacking the bytes gives `bits` back, followed by `false`
/// up to the next multiple of eight.
pub proof fn lemma_unpack_pack(bits: Seq<bool>)
    ensures
        unpack_bits(pack_bits(bits)).len() == 8 * ((bits.len() + 7) / 8),
        unpack_bits(pack_bits(bits)).len() >= bits.len(),
        unpack_bits(pack_bits(bits)).subrange(0, bits.len() as int) == bits,
        forall|i: int|
            bits.len() <= i < unpack_bits(pack_bits(bits)).len() ==> !(#[trigger] unpack_bits(
                pack_bits(bits),
            )[i]),
{
    let bytes = pack_bits(bits);
    let back = unpack_bits(bytes);
    assert forall|i: int| 0 <= i < back.len() implies #[trigger] back[i] == (bit_at(bits, i)
        == 1) by {
        lemma_bit_of_packed(bits, 8 * (i / 8), i % 8);
    }
    assert(back.subrange(0, bits.len() as int) =~= bits);
}

/// Unpacking `bytes` and packing the bits gives `bytes` back.
pub proof fn lemma_pack_unpack(bytes: Seq<u8>)
    ensures
        pack_bits(unpack_bits(bytes)) == bytes,
{
    let bits = unpack_bits(bytes);
    let back = pack_bits(bits);
    assert(back.len() == bytes.len());
    assert forall|i: int| 0 <= i < bytes.len() implies back[i] == bytes[i] by {
        let byte = bytes[i];
        lemma_packed_of_bits(byte);
        let one = unpack_bits(seq![byte]);
        assert forall|k: int| 0 <= k < 8 implies bit_at(bits, 8 * i + k) == bit_at(one, k) by {
            assert(bits[8 * i + k] == bit_of_byte(bytes[(8 * i + k) / 8], (8 * i + k) % 8));
            assert(one[k] == bit_of_byte(seq![byte][k / 8], k % 8));
        }
        assert(bit_at(bits, 8 * i + 0) == bit_at(one, 0));
        assert(bit_at(bits, 8 * i + 1) == bit_at(one, 1));
        assert(bit_at(bits, 8 * i + 2) == bit_at(one, 2));
        assert(bit_at(bits, 8 * i + 3) == bit_at(one, 3));
        assert(bit_at(bits, 8 * i + 4) == bit_at(one, 4));
        assert(bit_at(bits, 8 * i + 5) == bit_at(one, 5));
        assert(bit_at(bits, 8 * i + 6) == bit_at(one, 6));
        assert(bit_at(bits, 8 * i + 7) == bit_at(one, 7));
    }
    assert(back =~= bytes);
}

/// `bitfield`: the pieces that the sender has.
#[derive(Debug, Clone, PartialEq)]
pub struct BitfieldPayload {
    /// `true` at the index of each piece that the sender has.
    pub pieces_available: Vec<bool>,
}

impl View for BitfieldPayload {
    type V = Seq<bool>;

    open spec fn view(&self) -> Seq<bool> {
        self.pieces_available@
    }
}

/// 1 where `bits` holds `true` at `index`, 0 where it holds `false` or ends before.
fn bit_value(bits: &Vec<bool>, index: usize) -> (value: u8)
    ensures
        value == bit_at(bits@, index as int),
{
    if index < bits.len() && bits[index] {
        1
    } else {
        0
    }
}

impl BitfieldPayload {
    /// Whether the sender has no piece.
    pub fn is_empty(&self) -> (empty: bool)
        ensures
            empty == (forall|i: int| 0 <= i < self@.len() ==> !self@[i]),
    {
        let mut i: usize = 0;
        while i < self.pieces_available.len()
            invariant
                i <= self@.len(),
                forall|k: int| 0 <= k < i ==> !self@[k],
            decreases self@.len() - i,
        {
            if self.pieces_available[i] {
                return false;
            }
            i = i + 1;
        }
        true
    }

    /// Whether the sender has every piece.
    pub fn is_finished(&self) -> (finished: bool)
        ensures
            finished == (forall|i: int| 0 <= i < self@.len() ==> self@[i]),
    {
        let mut i: usize = 0;
        while i < self.pieces_available.len()
            invariant
                i <= self@.len(),
                forall|k: int| 0 <= k < i ==> self@[k],
            decreases self@.len() - i,
        {
            if !self.pieces_available[i] {
                return false;
            }
            i = i + 1;
        }
        true
    }
}

impl Payload for BitfieldPayload {
    open spec fn spec_to_be_bytes(value: Seq<bool>) -> Seq<u8> {
        pack_bits(value)
    }

    open spec fn readable(bytes: Seq<u8>) -> bool {
        8 * bytes.len() <= usize::MAX
    }

    open spec fn spec_from_be_bytes(bytes: Seq<u8>) -> Seq<bool> {
        unpack_bits(bytes)
    }

    fn from_be_bytes(payload: &[u8]) -> (value: Self) {
        let mut pieces_available: Vec<bool> = Vec::new();
        let mut i: usize = 0;
        while i < payload.len()
            invariant
                i <= payload@.len(),
                pieces_available@ == unpack_bits(payload@.subrange(0, i as int)),
            decreases payload@.len() - i,
        {
            let byte: u8 = payload[i];
            let ghost before = pieces_available@;
            pieces_available.push(byte / 128 % 2 == 1);
            pieces_available.push(byte / 64 % 2 == 1);
            pieces_available.push(byte / 32 % 2 == 1);
            pieces_available.push(byte / 16 % 2 == 1);
            pieces_available.push(byte / 8 % 2 == 1);
            pieces_available.push(byte / 4 % 2 == 1);
            pieces_available.push(byte / 2 % 2 == 1);
            pieces_available.push(byte % 2 == 1);
            proof {
                let now = unpack_bits(payload@.subrange(0, i + 1));
                assert(pieces_available@.len() == now.len());
                assert forall|k: int| 0 <= k < now.len() implies pieces_available@[k] == now[k] by {
                    if k < 8 * i {
                        assert(pieces_available@[k] == before[k]);
                        assert(payload@.subrange(0, i + 1)[k / 8] == payload@.subrange(
                            0,
                            i as int,
                        )[k / 8]);
                    } else {
                        assert(k / 8 == i);
                        assert(payload@.subrange(0, i + 1)[k / 8] == byte);
                    }
                }
                assert(pieces_available@ =~= now);
            }
            i = i + 1;
        }
        assert(payload@.subrange(0, i as int) =~= payload@);
        BitfieldPayload { pieces_available }
    }

    fn to_be_bytes(&self) -> (bytes: Vec<u8>) {
        let bits = &self.pieces_available;
        let count: usize = bits.len();
        let total: usize = if count % 8 == 0 {
            count / 8
        } else {
            count / 8 + 1
        };
        let mut bytes: Vec<u8> = Vec::new();
        let mut i: usize = 0;
        while i < total
            invariant
                count == bits@.len(),
                total == (count + 7) / 8,
                i <= total,
                bytes@.len() == i,
                forall|k: int| 0 <= k < i ==> bytes@[k] == packed_byte(bits@, 8 * k),
            decreases total - i,
        {
            let start: usize = 8 * i;
            let rest: usize = count - start;
            let b0: u8 = bit_value(bits, start);
            let b1: u8 = if rest > 1 { bit_value(bits, start + 1) } else { 0 };
            let b2: u8 = if rest > 2 { bit_value(bits, start + 2) } else { 0 };
            let b3: u8 = if rest > 3 { bit_value(bits, start + 3) } else { 0 };
            let b4: u8 = if rest > 4 { bit_value(bits, start + 4) } else { 0 };
            let b5: u8 = if rest > 5 { bit_value(bits, start + 5) } else { 0 };
            let b6: u8 = if rest > 6 { bit_value(bits, start + 6) } else { 0 };
            let b7: u8 = if rest > 7 { bit_value(bits, start + 7) } else { 0 };
            let byte: u8 = 128 * b0 + 64 * b1 + 32 * b2 + 16 * b3 + 8 * b4 + 4 * b5 + 2 * b6 + b7;
            bytes.push(byte);
            i = i + 1;
        }
        assert(bytes@ =~= pack_bits(bits@));
        bytes
    }
}

} // verus!
