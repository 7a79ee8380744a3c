use vstd::prelude::*;

use crate::bytes::{
    copy_range, lemma_u16_at_concat, lemma_u32_at_concat, push_all, push_u16, push_u32,
    read_u16, read_u32, u16_at, u16_bytes, u32_at, u32_bytes,
};
use crate::enums::NtrFileVersion;
use crate::error::NtrError;

verus! {

/// Largest value of a 32-bit size field.
pub const U32_MAX: u64 = 0xFFFF_FFFF;

/// A tagged block of a container: a 4-byte tag and an opaque payload.
pub struct NtrFileBlock {
    pub id: [u8; 4],
    pub contents: Vec<u8>,
}

/// What a block is: its tag and its payload.
pub struct BlockView {
    pub id: Seq<u8>,
    pub contents: Seq<u8>,
}

impl View for NtrFileBlock {
    type V = BlockView;

    open spec fn view(&self) -> BlockView {
        BlockView { id: self.id@, contents: self.contents@ }
    }
}

/// A format stored as a container: it reads itself from one and writes itself
/// as one. Each format's own methods of these names state what they do.
pub trait NtrFormat: Sized {
    fn read_from_ntr_file(file: &NtrFile) -> Result<Self, NtrError>;

    fn write_to_ntr_file(&self) -> Result<NtrFile, NtrError>;
}

/// The configuration that every container format shares.
pub struct NtrMetadata {
    pub version: NtrFileVersion,
}

/// A container: a 4-byte type tag, a header revision and an ordered list of blocks.
pub struct NtrFile {
    pub id: [u8; 4],
    pub version: NtrFileVersion,
    pub blocks: Vec<NtrFileBlock>,
}

/// What a container is: its tag, revision and the views of its blocks in order.
pub struct NtrFileView {
    pub id: Seq<u8>,
    pub version: NtrFileVersion,
    pub blocks: Seq<BlockView>,
}

/// The views of a sequence of blocks.
pub open spec fn block_views(bs: Seq<NtrFileBlock>) -> Seq<BlockView> {
    bs.map_values(|b: NtrFileBlock| b@)
}

impl View for NtrFile {
    type V = NtrFileView;

    open spec fn view(&self) -> NtrFileView {
        NtrFileView { id: self.id@, version: self.version, blocks: block_views(self.blocks@) }
    }
}

/// On-disk bytes of one block: tag, size (payload + 8), payload.
pub open spec fn block_bytes(b: BlockView) -> Seq<u8> {
    b.id + u32_bytes((b.contents.len() + 8) as u32) + b.contents
}

/// On-disk bytes of a sequence of blocks, in order.
pub open spec fn blocks_bytes(bs: Seq<BlockView>) -> Seq<u8>
    decreases bs.len(),
{
    if bs.len() == 0 {
        Seq::empty()
    } else {
        blocks_bytes(bs.drop_last()) + block_bytes(bs.last())
    }
}

/// The header value of the file-size field: header plus all blocks.
pub open spec fn file_size(f: NtrFileView) -> int {
    16 + blocks_bytes(f.blocks).len() as int
}

/// Whether a container fits the header's fields: at most 0xFFFF blocks and a
/// total size that a 32-bit field holds.
pub open spec fn encodable(f: NtrFileView) -> bool {
    f.id.len() == 4 && f.blocks.len() <= 0xFFFF && file_size(f) <= U32_MAX
}

/// On-disk bytes of a container.
pub open spec fn file_bytes(f: NtrFileView) -> Seq<u8> {
    f.id + u16_bytes(0xFEFF) + u16_bytes(f.version.code()) + u32_bytes(file_size(f) as u32)
        + u16_bytes(16) + u16_bytes(f.blocks.len() as u16) + blocks_bytes(f.blocks)
}

/// The revision whose on-disk value is `v`.
pub open spec fn version_of(v: u16) -> Option<NtrFileVersion> {
    if v == 0x0100 {
        Some(NtrFileVersion::Version0100)
    } else if v == 0x0101 {
        Some(NtrFileVersion::Version0101)
    } else {
        None
    }
}

/// The `n` blocks that start at `pos`, or `None` where one is cut short or has
/// a size under 8.
pub open spec fn parse_blocks(s: Seq<u8>, pos: int, n: nat) -> Option<Seq<BlockView>>
    decreases n,
{
    if n == 0 {
        Some(Seq::empty())
    } else if pos < 0 || pos + 8 > s.len() {
        None
    } else {
        let size = u32_at(s, pos + 4) as int;
        if size < 8 || pos + size > s.len() {
            None
        } else {
            match parse_blocks(s, pos + size, (n - 1) as nat) {
                Some(rest) => Some(
                    seq![BlockView { id: s.subrange(pos, pos + 4), contents: s.subrange(pos + 8, pos + size) }]
                        + rest,
                ),
                None => None,
            }
        }
    }
}

/// The container that `s` holds: a 16-byte header (tag, byte-order mark 0xFEFF,
/// revision, file size, header size 16, block count) and then the blocks. The
/// file-size field is not checked and bytes after the last block are ignored.
pub open spec fn parse_file(s: Seq<u8>) -> Option<NtrFileView> {
    if s.len() < 16 || u16_at(s, 4) != 0xFEFF || version_of(u16_at(s, 6)) is None || u16_at(
        s,
        12,
    ) != 16 {
        None
    } else {
        match parse_blocks(s, 16, u16_at(s, 14) as nat) {
            Some(bs) => Some(
                NtrFileView {
                    id: s.subrange(0, 4),
                    version: version_of(u16_at(s, 6)).unwrap(),
                    blocks: bs,
                },
            ),
            None => None,
        }
    }
}

/// Encoding `bs` and reading it back gives the first block and the bytes of the rest.
proof fn lemma_blocks_bytes_front(bs: Seq<BlockView>)
    requires
        bs.len() > 0,
    ensures
        blocks_bytes(bs) == block_bytes(bs[0]) + blocks_bytes(bs.drop_first()),
    decreases bs.len(),
{
    if bs.len() == 1 {
        assert(bs.drop_last() =~= Seq::<BlockView>::empty());
        assert(bs.drop_first() =~= Seq::<BlockView>::empty());
        assert(blocks_bytes(bs) =~= block_bytes(bs[0]) + blocks_bytes(bs.drop_first()));
    } else {
        lemma_blocks_bytes_front(bs.drop_last());
        assert(bs.drop_last().drop_first() =~= bs.drop_first().drop_last());
        assert(bs.drop_first().last() == bs.last());
        assert(bs.drop_last()[0] == bs[0]);
        assert(blocks_bytes(bs) =~= block_bytes(bs[0]) + blocks_bytes(bs.drop_first()));
    }
}

#[verifier::rlimit(60)]
proof fn lemma_parse_blocks_bytes(pre: Seq<u8>, bs: Seq<BlockView>, post: Seq<u8>)
    requires
        forall|i: int| 0 <= i < bs.len() ==> (#[trigger] bs[i]).id.len() == 4,
        pre.len() + blocks_bytes(bs).len() <= U32_MAX,
    ensures
        parse_blocks(pre + blocks_bytes(bs) + post, pre.len() as int, bs.len()) == Some(bs),
    decreases bs.len(),
{
    let s = pre + blocks_bytes(bs) + post;
    if bs.len() == 0 {
        assert(Seq::<BlockView>::empty() =~= bs);
    } else {
        lemma_blocks_bytes_front(bs);
        let b = bs[0];
        let rest = bs.drop_first();
        let size = b.contents.len() + 8;
        assert(size <= U32_MAX);
        let pre2 = pre + block_bytes(b);
        assert(s =~= pre + b.id + u32_bytes(size as u32) + (b.contents + blocks_bytes(rest)
            + post));
        lemma_u32_at_concat(pre + b.id, size as u32, b.contents + blocks_bytes(rest) + post);
        assert(u32_at(s, pre.len() as int + 4) == size);
        assert(s =~= pre2 + blocks_bytes(rest) + post);
        assert forall|i: int| 0 <= i < rest.len() implies (#[trigger] rest[i]).id.len() == 4 by {
            assert(rest[i] == bs[i + 1]);
        }
        lemma_parse_blocks_bytes(pre2, rest, post);
        assert(s.subrange(pre.len() as int, pre.len() as int + 4) =~= b.id);
        assert(s.subrange(pre.len() as int + 8, pre.len() as int + size) =~= b.contents);
        assert(seq![b] + rest =~= bs);
    }
}

/// Decoding the encoding of a container gives the container back, field for
/// field, for every container whose sizes fit the header.
#[verifier::rlimit(50)]
pub proof fn lemma_container_round_trip(f: NtrFileView)
    requires
        encodable(f),
        forall|i: int| 0 <= i < f.blocks.len() ==> (#[trigger] f.blocks[i]).id.len() == 4,
    ensures
        parse_file(file_bytes(f)) == Some(f),
{
    let s = file_bytes(f);
    let h0 = f.id;
    let h1 = h0 + u16_bytes(0xFEFF);
    let h2 = h1 + u16_bytes(f.version.code());
    let h3 = h2 + u32_bytes(file_size(f) as u32);
    let h4 = h3 + u16_bytes(16);
    let h5 = h4 + u16_bytes(f.blocks.len() as u16);
    let body = blocks_bytes(f.blocks);
    assert(s =~= h0 + u16_bytes(0xFEFF) + (u16_bytes(f.version.code()) + u32_bytes(
        file_size(f) as u32,
    ) + u16_bytes(16) + u16_bytes(f.blocks.len() as u16) + body));
    lemma_u16_at_concat(h0, 0xFEFF, u16_bytes(f.version.code()) + u32_bytes(file_size(f) as u32)
        + u16_bytes(16) + u16_bytes(f.blocks.len() as u16) + body);
    assert(s =~= h1 + u16_bytes(f.version.code()) + (u32_bytes(file_size(f) as u32) + u16_bytes(
        16,
    ) + u16_bytes(f.blocks.len() as u16) + body));
    lemma_u16_at_concat(h1, f.version.code(), u32_bytes(file_size(f) as u32) + u16_bytes(16)
        + u16_bytes(f.blocks.len() as u16) + body);
    assert(s =~= h3 + u16_bytes(16) + (u16_bytes(f.blocks.len() as u16) + body));
    lemma_u16_at_concat(h3, 16, u16_bytes(f.blocks.len() as u16) + body);
    assert(s =~= h4 + u16_bytes(f.blocks.len() as u16) + body);
    lemma_u16_at_concat(h4, f.blocks.len() as u16, body);
    assert(s =~= h5 + body + Seq::<u8>::empty());
    lemma_parse_blocks_bytes(h5, f.blocks, Seq::<u8>::empty());
    assert(s.subrange(0, 4) =~= f.id);
    assert(version_of(f.version.code()) == Some(f.version));
}

impl NtrFileBlock {
    pub fn new(id: [u8; 4], contents: Vec<u8>) -> (r: Self)
        ensures
            r.id == id,
            r.contents@ == contents@,
    {
        NtrFileBlock { id, contents }
    }

    pub fn id(&self) -> (r: &[u8; 4])
        ensures
            *r == self.id,
    {
        &self.id
    }

    pub fn contents(&self) -> (r: &[u8])
        ensures
            r@ == self.contents@,
    {
        self.contents.as_slice()
    }
}

/// Whether a 4-byte tag equals the given bytes.
pub fn tag_is(id: &[u8; 4], a: u8, b: u8, c: u8, d: u8) -> (r: bool)
    ensures
        r == (id@ == seq![a, b, c, d]),
{
    let r = id[0] == a && id[1] == b && id[2] == c && id[3] == d;
    assert(r == (id@ =~= seq![a, b, c, d]));
    r
}

impl NtrFile {
    pub fn new(id: [u8; 4], version: NtrFileVersion, blocks: Vec<NtrFileBlock>) -> (r: Self)
        ensures
            r.id == id,
            r.version == version,
            r.blocks@ == blocks@,
    {
        NtrFile { id, version, blocks }
    }

    pub fn id(&self) -> (r: &[u8; 4])
        ensures
            *r == self.id,
    {
        &self.id
    }

    pub fn version(&self) -> (r: NtrFileVersion)
        ensures
            r == self.version,
    {
        self.version
    }

    pub fn blocks(&self) -> (r: &Vec<NtrFileBlock>)
        ensures
            r@ == self.blocks@,
    {
        &self.blocks
    }

    /// Decodes a container. Fails where `parse_file` finds no container.
    pub fn read_from_data(data: &[u8]) -> (r: Result<NtrFile, NtrError>)
        ensures
            r is Ok <==> parse_file(data@) is Some,
            r matches Ok(f) ==> parse_file(data@) == Some(f@),
    {
        let s = Ghost(data@);
        if data.len() < 16 {
            return Err(NtrError::Malformed);
        }
        let id = [data[0], data[1], data[2], data[3]];
        if read_u16(data, 4).unwrap() != 0xFEFF {
            return Err(NtrError::Unsupported);
        }
        let version = match NtrFileVersion::from_u16(read_u16(data, 6).unwrap()) {
            Some(v) => v,
            None => {
                assert(NtrFileVersion::Version0100.code() != u16_at(s@, 6));
                assert(NtrFileVersion::Version0101.code() != u16_at(s@, 6));
                return Err(NtrError::Unsupported);
            },
        };
        assert(version_of(u16_at(s@, 6)) == Some(version));
        if read_u16(data, 12).unwrap() != 16 {
            return Err(NtrError::Malformed);
        }
        let n = read_u16(data, 14).unwrap();
        let mut blocks: Vec<NtrFileBlock> = Vec::new();
        let mut pos: usize = 16;
        let mut i: u16 = 0;
        while i < n
            invariant
                s@ == data@,
                16 <= pos <= data@.len(),
                i <= n,
                n == u16_at(s@, 14),
                parse_blocks(s@, 16, n as nat) == (match parse_blocks(
                    s@,
                    pos as int,
                    (n - i) as nat,
                ) {
                    Some(rest) => Some(block_views(blocks@) + rest),
                    None => None,
                }),
            decreases n - i,
        {
            if data.len() - pos < 8 {
                return Err(NtrError::Malformed);
            }
            let size = read_u32(data, pos + 4).unwrap();
            if size < 8 || (size as u64) > ((data.len() - pos) as u64) {
                return Err(NtrError::Malformed);
            }
            let size = size as usize;
            let bid = [data[pos], data[pos + 1], data[pos + 2], data[pos + 3]];
            let contents = copy_range(data, pos + 8, pos + size);
            let block = NtrFileBlock { id: bid, contents };
            assert(bid@ =~= s@.subrange(pos as int, pos + 4));
            let ghost old_views = block_views(blocks@);
            blocks.push(block);
            assert(block_views(blocks@) =~= old_views + seq![block@]);
            proof {
                let rest = parse_blocks(s@, pos + size, (n - i - 1) as nat);
                if let Some(r) = rest {
                    assert(old_views + (seq![block@] + r) =~= block_views(blocks@) + r);
                }
            }
            pos = pos + size;
            i = i + 1;
        }
        assert(block_views(blocks@) + Seq::<BlockView>::empty() =~= block_views(blocks@));
        assert(id@ =~= s@.subrange(0, 4));
        Ok(NtrFile { id, version, blocks })
    }

    /// Encodes the container. Fails where the sizes do not fit the header.
    pub fn write_to_data(&self) -> (r: Result<Vec<u8>, NtrError>)
        ensures
            r is Ok <==> encodable(self@),
            r matches Ok(v) ==> v@ == file_bytes(self@),
            r matches Err(e) ==> e == NtrError::Precondition,
    {
        let ghost bs = block_views(self.blocks@);
        if self.blocks.len() > 0xFFFF {
            return Err(NtrError::Precondition);
        }
        let mut total: u64 = 16;
        let mut over = false;
        let mut i: usize = 0;
        while i < self.blocks.len()
            invariant
                bs == block_views(self.blocks@),
                i <= self.blocks@.len(),
                total <= U32_MAX,
                over <==> 16 + blocks_bytes(bs.take(i as int)).len() > U32_MAX,
                !over ==> total == 16 + blocks_bytes(bs.take(i as int)).len(),
            decreases self.blocks@.len() - i,
        {
            assert(bs.take(i + 1).drop_last() =~= bs.take(i as int));
            let len = self.blocks[i].contents.len();
            if !over {
                if (len as u64) > U32_MAX || total + (len as u64) + 8 > U32_MAX {
                    over = true;
                } else {
                    total = total + (len as u64) + 8;
                }
            }
            i = i + 1;
        }
        assert(bs.take(self.blocks@.len() as int) =~= bs);
        if over {
            return Err(NtrError::Precondition);
        }
        let mut data: Vec<u8> = Vec::new();
        push_all(&mut data, &self.id);
        push_u16(&mut data, 0xFEFF);
        push_u16(&mut data, self.version.into_u16());
        push_u32(&mut data, total as u32);
        push_u16(&mut data, 16);
        push_u16(&mut data, self.blocks.len() as u16);
        let ghost header = data@;
        let mut j: usize = 0;
        while j < self.blocks.len()
            invariant
                bs == block_views(self.blocks@),
                j <= self.blocks@.len(),
                16 + blocks_bytes(bs).len() <= U32_MAX,
                data@ == header + blocks_bytes(bs.take(j as int)),
            decreases self.blocks@.len() - j,
        {
            proof {
                assert(bs.take(j + 1).drop_last() =~= bs.take(j as int));
                assert forall|k: int| 0 <= k < bs.len() implies (#[trigger] bs[k]).id.len()
                    == 4 by {
                    assert(bs[k].id == self.blocks@[k].id@);
                }
                lemma_blocks_prefix_len(bs, j + 1);
            }
            let block = &self.blocks[j];
            push_all(&mut data, &block.id);
            push_u32(&mut data, (block.contents.len() + 8) as u32);
            push_all(&mut data, block.contents.as_slice());
            assert(data@ =~= header + blocks_bytes(bs.take(j + 1)));
            j = j + 1;
        }
        assert(bs.take(self.blocks@.len() as int) =~= bs);
        Ok(data)
    }
}

/// A prefix of a block list never encodes to more bytes than the whole list.
proof fn lemma_blocks_prefix_len(bs: Seq<BlockView>, k: int)
    requires
        0 <= k <= bs.len(),
        forall|i: int| 0 <= i < bs.len() ==> (#[trigger] bs[i]).id.len() == 4,
    ensures
        blocks_bytes(bs.take(k)).len() <= blocks_bytes(bs).len(),
        k > 0 ==> bs[k - 1].contents.len() + 8 <= blocks_bytes(bs).len(),
    decreases bs.len() - k,
{
    if k < bs.len() {
        lemma_blocks_prefix_len(bs, k + 1);
        assert(bs.take(k + 1).drop_last() =~= bs.take(k));
    } else {
        assert(bs.take(k) =~= bs);
    }
    if k > 0 {
        assert(bs.take(k).drop_last() =~= bs.take(k - 1));
        assert(bs.take(k).last() == bs[k - 1]);
        assert(bs[k - 1].id.len() == 4);
        assert(blocks_bytes(bs.take(k)) == blocks_bytes(bs.take(k - 1)) + block_bytes(bs[k - 1]));
        assert(block_bytes(bs[k - 1]).len() == 8 + bs[k - 1].contents.len());
    }
}

/// Number of label offsets that the scan accepts from entry `i` on, where `prev`
/// is the offset accepted last (-1 before the first). An entry is accepted while
/// it is no larger than the bytes that remain from it and larger than `prev`.
/// `None` where the scan runs off the end of the payload.
pub open spec fn label_scan(c: Seq<u8>, i: nat, prev: int) -> Option<nat>
    decreases c.len() - 4 * i,
{
    if 4 * i + 4 > c.len() {
        None
    } else {
        let v = u32_at(c, 4 * i as int) as int;
        if v > c.len() - 4 * i || v <= prev {
            Some(0)
        } else {
            match label_scan(c, i + 1, v) {
                Some(k) => Some(k + 1),
                None => None,
            }
        }
    }
}

/// Length of the NUL-terminated 7-bit string at `pos`, or `None` where no NUL
/// follows or a byte of 127 or more comes first.
pub open spec fn cstring_len(c: Seq<u8>, pos: int) -> Option<nat>
    decreases c.len() - pos,
{
    if pos < 0 || pos >= c.len() || c[pos] >= 127 {
        None
    } else if c[pos] == 0 {
        Some(0)
    } else {
        match cstring_len(c, pos + 1) {
            Some(l) => Some(l + 1),
            None => None,
        }
    }
}

/// The `k` consecutive NUL-terminated strings that start at `pos`.
pub open spec fn read_cstrings(c: Seq<u8>, pos: int, k: nat) -> Option<Seq<Seq<u8>>>
    decreases k,
{
    if k == 0 {
        Some(Seq::empty())
    } else {
        match cstring_len(c, pos) {
            Some(l) => match read_cstrings(c, pos + l + 1, (k - 1) as nat) {
                Some(rest) => Some(seq![c.subrange(pos, pos + l)] + rest),
                None => None,
            },
            None => None,
        }
    }
}

/// The labels that a label payload holds: as many strings as the offset scan
/// counts, read one after another right after the offsets.
pub open spec fn labels_of(c: Seq<u8>) -> Option<Seq<Seq<u8>>> {
    match label_scan(c, 0, -1) {
        Some(k) => read_cstrings(c, 4 * k as int, k),
        None => None,
    }
}

/// Total bytes that the labels take with their NULs.
pub open spec fn labels_size(ls: Seq<Seq<u8>>) -> int
    decreases ls.len(),
{
    if ls.len() == 0 {
        0
    } else {
        labels_size(ls.drop_last()) + ls.last().len() + 1
    }
}

/// The offset table: for each label, where it starts among the strings.
pub open spec fn label_offsets_bytes(ls: Seq<Seq<u8>>) -> Seq<u8>
    decreases ls.len(),
{
    if ls.len() == 0 {
        Seq::empty()
    } else {
        label_offsets_bytes(ls.drop_last()) + u32_bytes(labels_size(ls.drop_last()) as u32)
    }
}

/// The labels one after another, each followed by a NUL.
pub open spec fn label_strings_bytes(ls: Seq<Seq<u8>>) -> Seq<u8>
    decreases ls.len(),
{
    if ls.len() == 0 {
        Seq::empty()
    } else {
        label_strings_bytes(ls.drop_last()) + ls.last() + seq![0u8]
    }
}

/// Payload of a label block.
pub open spec fn labl_bytes(ls: Seq<Seq<u8>>) -> Seq<u8> {
    label_offsets_bytes(ls) + label_strings_bytes(ls)
}

/// The byte strings that a list of labels holds.
pub open spec fn label_views(ls: Seq<Vec<u8>>) -> Seq<Seq<u8>> {
    ls.map_values(|l: Vec<u8>| l@)
}

proof fn lemma_labels_size_mono(ls: Seq<Seq<u8>>, k: int)
    requires
        0 <= k <= ls.len(),
    ensures
        labels_size(ls.take(k)) <= labels_size(ls),
    decreases ls.len() - k,
{
    if k < ls.len() {
        lemma_labels_size_mono(ls, k + 1);
        assert(ls.take(k + 1).drop_last() =~= ls.take(k));
    } else {
        assert(ls.take(k) =~= ls);
    }
}

impl NtrFile {
    /// Reads the labels of a label block (tag `LBAL`). How many there are is
    /// inferred from the offset table (see `label_scan`), which undercounts where
    /// leading labels are empty.
    pub fn read_labl_block(block: &NtrFileBlock) -> (r: Result<Vec<Vec<u8>>, NtrError>)
        ensures
            r is Ok <==> block.id@ == seq![0x4Cu8, 0x42, 0x41, 0x4C] && labels_of(
                block.contents@,
            ) is Some,
            r matches Ok(ls) ==> labels_of(block.contents@) == Some(label_views(ls@)),
    {
        if !tag_is(&block.id, 0x4C, 0x42, 0x41, 0x4C) {
            return Err(NtrError::Malformed);
        }
        let c = block.contents.as_slice();
        let mut i: usize = 0;
        let mut prev: i64 = -1;
        let mut count: usize = 0;
        loop
            invariant
                c@ == block.contents@,
                4 * i <= c@.len(),
                -1 <= prev <= U32_MAX,
                label_scan(c@, 0, -1) == (match label_scan(c@, i as nat, prev as int) {
                    Some(k) => Some((k + i) as nat),
                    None => None,
                }),
            ensures
                4 * count <= c@.len(),
                label_scan(c@, 0, -1) == Some(count as nat),
            decreases c@.len() - 4 * i,
        {
            if c.len() - 4 * i < 4 {
                assert(label_scan(c@, i as nat, prev as int) is None);
                return Err(NtrError::Malformed);
            }
            let v = read_u32(c, 4 * i).unwrap();
            if (v as usize) > c.len() - 4 * i || (v as i64) <= prev {
                assert(label_scan(c@, i as nat, prev as int) == Some(0nat));
                count = i;
                break ;
            }
            prev = v as i64;
            i = i + 1;
        }
        assert(label_scan(c@, 0, -1) == Some(count as nat));
        let mut labels: Vec<Vec<u8>> = Vec::new();
        let clen = c.len();
        assert(4 * count <= clen);
        let mut pos: usize = 4 * count;
        let mut j: usize = 0;
        while j < count
            invariant
                c@ == block.contents@,
                c@.len() <= usize::MAX,
                pos <= c@.len(),
                j <= count,
                labels_of(c@) == (match read_cstrings(c@, pos as int, (count - j) as nat) {
                    Some(rest) => Some(label_views(labels@) + rest),
                    None => None,
                }),
                label_scan(c@, 0, -1) == Some(count as nat),
            decreases count - j,
        {
            let start = pos;
            let mut label: Vec<u8> = Vec::new();
            loop
                invariant
                    c@ == block.contents@,
                    c@.len() <= usize::MAX,
                    j < count,
                    labels_of(c@) == (match read_cstrings(c@, start as int, (count - j) as nat) {
                        Some(rest) => Some(label_views(labels@) + rest),
                        None => None,
                    }),
                    start <= pos <= c@.len(),
                    label@ == c@.subrange(start as int, pos as int),
                    cstring_len(c@, start as int) == (match cstring_len(c@, pos as int) {
                        Some(l) => Some(l + (pos - start) as nat),
                        None => None,
                    }),
                ensures
                    start <= pos < c@.len(),
                    label@ == c@.subrange(start as int, pos as int),
                    cstring_len(c@, start as int) == Some((pos - start) as nat),
                decreases c@.len() - pos,
            {
                if pos >= c.len() || c[pos] >= 127 {
                    assert(cstring_len(c@, pos as int) is None);
                    assert(read_cstrings(c@, start as int, (count - j) as nat) is None);
                    return Err(NtrError::Malformed);
                }
                if c[pos] == 0 {
                    assert(cstring_len(c@, pos as int) == Some(0nat));
                    break ;
                }
                label.push(c[pos]);
                pos = pos + 1;
                assert(label@ =~= c@.subrange(start as int, pos as int));
            }
            let ghost old_views = label_views(labels@);
            proof {
                let rest = read_cstrings(c@, pos + 1, (count - j - 1) as nat);
                if let Some(r) = rest {
                    assert(old_views + (seq![label@] + r) =~= (old_views + seq![label@]) + r);
                }
            }
            labels.push(label);
            assert(label_views(labels@) =~= old_views + seq![labels@.last()@]);
            pos = pos + 1;
            j = j + 1;
        }
        assert(label_views(labels@) + Seq::<Seq<u8>>::empty() =~= label_views(labels@));
        Ok(labels)
    }

    /// Builds a label block: the offset of each label among the strings, then the
    /// labels, each followed by a NUL. Fails where an offset does not fit 32 bits.
    pub fn write_labl_block(labels: &[Vec<u8>]) -> (r: Result<NtrFileBlock, NtrError>)
        ensures
            r is Ok <==> labels_size(label_views(labels@)) <= U32_MAX,
            r matches Ok(b) ==> b.id@ == seq![0x4Cu8, 0x42, 0x41, 0x4C] && b.contents@
                == labl_bytes(label_views(labels@)),
            r matches Err(e) ==> e == NtrError::Precondition,
    {
        let ghost ls = label_views(labels@);
        let mut offsets: Vec<u8> = Vec::new();
        let mut offset: u64 = 0;
        let mut i: usize = 0;
        while i < labels.len()
            invariant
                ls == label_views(labels@),
                i <= labels@.len(),
                offset == labels_size(ls.take(i as int)),
                offset <= U32_MAX,
                offsets@ == label_offsets_bytes(ls.take(i as int)),
            decreases labels@.len() - i,
        {
            assert(ls.take(i + 1).drop_last() =~= ls.take(i as int));
            push_u32(&mut offsets, offset as u32);
            let len = labels[i].len();
            if (len as u64) >= U32_MAX || offset + (len as u64) + 1 > U32_MAX {
                proof {
                    lemma_labels_size_mono(ls, i + 1);
                }
                return Err(NtrError::Precondition);
            }
            offset = offset + (len as u64) + 1;
            i = i + 1;
        }
        assert(ls.take(labels@.len() as int) =~= ls);
        let mut strings: Vec<u8> = Vec::new();
        let mut j: usize = 0;
        while j < labels.len()
            invariant
                ls == label_views(labels@),
                j <= labels@.len(),
                strings@ == label_strings_bytes(ls.take(j as int)),
            decreases labels@.len() - j,
        {
            assert(ls.take(j + 1).drop_last() =~= ls.take(j as int));
            push_all(&mut strings, labels[j].as_slice());
            strings.push(0);
            assert(strings@ =~= label_strings_bytes(ls.take(j + 1)));
            j = j + 1;
        }
        assert(ls.take(labels@.len() as int) =~= ls);
        push_all(&mut offsets, strings.as_slice());
        Ok(NtrFileBlock { id: [0x4C, 0x42, 0x41, 0x4C], contents: offsets })
    }
}

} // verus!
