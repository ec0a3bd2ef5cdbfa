use vstd::prelude::*;

use crate::chars::string_from_chars;
use crate::paths::AppPath;

verus! {

/// Cap on a single archive entry's declared uncompressed size.
pub const MAX_ZIP_ENTRY_SIZE: u64 = 100 * 1024 * 1024;

/// How far from the end of the payload the end-of-central-directory marker
/// may stand: the marker's fixed part plus the format's largest comment.
pub const EOCD_SEARCH_SPAN: usize = 65_557;

/// The payload opens with one of the format's three leading signatures:
/// a local file header, an empty archive, or a spanned archive.
pub open spec fn zip_signature_ok(b: Seq<u8>) -> bool {
    b.len() >= 4 && b[0] == 0x50u8 && b[1] == 0x4bu8 && ((b[2] == 0x03u8 && b[3] == 0x04u8) || (
    b[2] == 0x05u8 && b[3] == 0x06u8) || (b[2] == 0x07u8 && b[3] == 0x08u8))
}

/// The end-of-central-directory signature stands at offset `i`.
pub open spec fn eocd_at(b: Seq<u8>, i: int) -> bool {
    0 <= i && i + 4 <= b.len() && b[i] == 0x50u8 && b[i + 1] == 0x4bu8 && b[i + 2] == 0x05u8 && b[i
        + 3] == 0x06u8
}

/// Where the search for the end-of-central-directory marker begins.
pub open spec fn eocd_search_start(b: Seq<u8>) -> int {
    if b.len() >= EOCD_SEARCH_SPAN { b.len() - EOCD_SEARCH_SPAN } else { 0 }
}

/// The payload holds an end-of-central-directory marker within the final
/// stretch that the format permits.
pub open spec fn zip_eocd_ok(b: Seq<u8>) -> bool {
    b.len() >= 22 && exists|i: int| eocd_search_start(b) <= i && eocd_at(b, i)
}

/// Does the payload begin with a recognised archive signature?
pub fn has_zip_signature(bytes: &[u8]) -> (r: bool)
    ensures
        r == zip_signature_ok(bytes@),
{
    if bytes.len() < 4 {
        return false;
    }
    let b0 = bytes[0];
    let b1 = bytes[1];
    let b2 = bytes[2];
    let b3 = bytes[3];
    b0 == 0x50 && b1 == 0x4b && ((b2 == 0x03 && b3 == 0x04) || (b2 == 0x05 && b3 == 0x06) || (b2
        == 0x07 && b3 == 0x08))
}

/// Does the final permitted stretch of the payload hold the
/// end-of-central-directory marker?
pub fn has_zip_end_of_central_directory(bytes: &[u8]) -> (r: bool)
    ensures
        r == zip_eocd_ok(bytes@),
{
    if bytes.len() < 22 {
        return false;
    }
    let start: usize = if bytes.len() >= EOCD_SEARCH_SPAN {
        bytes.len() - EOCD_SEARCH_SPAN
    } else {
        0
    };
    let stop: usize = bytes.len() - 4;
    let mut i: usize = start;
    while i <= stop
        invariant
            start <= i,
            start == eocd_search_start(bytes@),
            stop == bytes@.len() - 4,
            i <= bytes@.len(),
            bytes@.len() >= 22,
            forall|j: int| start <= j < i ==> !eocd_at(bytes@, j),
        decreases bytes@.len() - i,
    {
        if bytes[i] == 0x50 && bytes[i + 1] == 0x4b && bytes[i + 2] == 0x05 && bytes[i + 3]
            == 0x06 {
            proof {
                assert(eocd_at(bytes@, i as int));
            }
            return true;
        }
        proof {
            assert(!eocd_at(bytes@, i as int));
        }
        i = i + 1;
    }
    proof {
        assert forall|j: int| eocd_search_start(bytes@) <= j implies !eocd_at(bytes@, j) by {
            if j >= i {
                assert(j + 4 > bytes@.len());
            }
        }
    }
    false
}

/// What `zip::ZipArchive::new` makes of a byte payload: whether its
/// central directory parses.
pub uninterp spec fn zip_parses(b: Seq<u8>) -> bool;

/// Relies on zip::ZipArchive::new: reads and parses the archive's central
/// directory record out of the payload, a function of the bytes alone.
#[verifier::external_body]
pub(crate) fn zip_parse_check(bytes: &Vec<u8>) -> (r: bool)
    ensures
        r == zip_parses(bytes@),
{
    zip::ZipArchive::new(std::io::Cursor::new(bytes.as_slice())).is_ok()
}

/// The ways a downloaded payload can fail structural validation.
pub enum ZipFlaw {
    MissingSignature,
    MissingCentralDirectory,
    ParseFailed,
}

/// The payload passes every structural check.
pub open spec fn zip_bytes_valid(b: Seq<u8>) -> bool {
    zip_signature_ok(b) && zip_eocd_ok(b) && zip_parses(b)
}

/// Run the structural checks in order: leading signature, trailing
/// end-of-central-directory marker, then a full central-directory parse.
pub fn validate_zip_bytes(bytes: &Vec<u8>) -> (r: Result<(), ZipFlaw>)
    ensures
        r is Ok <==> zip_bytes_valid(bytes@),
        r matches Err(f) ==> match f {
            ZipFlaw::MissingSignature => !zip_signature_ok(bytes@),
            ZipFlaw::MissingCentralDirectory => zip_signature_ok(bytes@) && !zip_eocd_ok(bytes@),
            ZipFlaw::ParseFailed => zip_signature_ok(bytes@) && zip_eocd_ok(bytes@) && !zip_parses(
                bytes@,
            ),
        },
{
    if !has_zip_signature(bytes.as_slice()) {
        return Err(ZipFlaw::MissingSignature);
    }
    if !has_zip_end_of_central_directory(bytes.as_slice()) {
        return Err(ZipFlaw::MissingCentralDirectory);
    }
    if !zip_parse_check(bytes) {
        return Err(ZipFlaw::ParseFailed);
    }
    Ok(())
}

/// One archive entry, as the archive reader hands it out: the declared
/// name, the declared uncompressed size, the directory flag, and the
/// decompressed bytes.
pub struct ZipEntry {
    pub name: Vec<char>,
    pub size: u64,
    pub is_dir: bool,
    pub data: Vec<u8>,
}

/// The mathematical shape of an archive entry.
pub struct ZipEntryModel {
    pub name: Seq<char>,
    pub size: nat,
    pub is_dir: bool,
    pub data: Seq<u8>,
}

impl View for ZipEntry {
    type V = ZipEntryModel;

    open spec fn view(&self) -> ZipEntryModel {
        ZipEntryModel {
            name: self.name@,
            size: self.size as nat,
            is_dir: self.is_dir,
            data: self.data@,
        }
    }
}

impl DeepView for ZipEntry {
    type V = ZipEntryModel;

    open spec fn deep_view(&self) -> ZipEntryModel {
        self.view()
    }
}

/// What the archive reader yields for a byte payload: `None` where
/// opening or decompressing fails, otherwise the entry list in archive
/// order.
pub uninterp spec fn zip_entries_of(b: Seq<u8>) -> Option<Seq<ZipEntryModel>>;

/// Relies on zip::ZipArchive::new and ZipArchive::by_index: yields, in
/// archive order, each entry's declared name, declared uncompressed size,
/// directory flag and decompressed bytes, all a function of the payload
/// alone.
#[verifier::external_body]
pub(crate) fn read_zip_entries(bytes: &Vec<u8>) -> (r: Option<Vec<ZipEntry>>)
    ensures
        match r {
            Some(es) => zip_entries_of(bytes@) == Some(es.deep_view()),
            None => zip_entries_of(bytes@) is None,
        },
{
    let mut archive = zip::ZipArchive::new(std::io::Cursor::new(bytes.as_slice())).ok()?;
    let mut out = Vec::new();
    for i in 0..archive.len() {
        let mut f = archive.by_index(i).ok()?;
        let name: Vec<char> = f.name().chars().collect();
        let size = f.size();
        let is_dir = f.is_dir();
        let mut data = Vec::new();
        std::io::Read::read_to_end(&mut f, &mut data).ok()?;
        out.push(ZipEntry { name, size, is_dir, data });
    }
    Some(out)
}

/// A path separator inside an archive entry name.
pub open spec fn is_sep(c: char) -> bool {
    c == '/' || c == '\\'
}

/// An entry name split at its separators, empty segments kept.
pub open spec fn entry_segments(s: Seq<char>) -> Seq<Seq<char>>
    decreases s.len(),
{
    if s.len() == 0 {
        seq![Seq::empty()]
    } else if is_sep(s.last()) {
        entry_segments(s.drop_last()).push(Seq::empty())
    } else {
        let pre = entry_segments(s.drop_last());
        pre.update(pre.len() - 1, pre.last().push(s.last()))
    }
}

pub proof fn lemma_entry_segments_len(s: Seq<char>)
    ensures
        entry_segments(s).len() >= 1,
    decreases s.len(),
{
    if s.len() > 0 {
        lemma_entry_segments_len(s.drop_last());
    }
}

/// A segment that must abort the whole extraction: a parent-directory
/// step, or a drive prefix.
pub open spec fn segment_unsafe(c: Seq<char>) -> bool {
    c == seq!['.', '.'] || c.contains(':')
}

/// A segment that is silently dropped: an empty run between separators,
/// or a current-directory step.
pub open spec fn segment_skipped(c: Seq<char>) -> bool {
    c.len() == 0 || c == seq!['.']
}

/// An entry name is safe when it is relative and none of its segments is
/// a parent-directory step or a drive prefix.
pub open spec fn entry_name_safe(s: Seq<char>) -> bool {
    &&& (s.len() == 0 || !is_sep(s[0]))
    &&& forall|i: int|
        0 <= i < entry_segments(s).len() ==> !segment_unsafe(#[trigger] entry_segments(s)[i])
}

/// The kept segments of an entry name, in order.
pub open spec fn kept_segments(segs: Seq<Seq<char>>) -> Seq<Seq<char>>
    decreases segs.len(),
{
    if segs.len() == 0 {
        Seq::empty()
    } else if segment_skipped(segs.last()) {
        kept_segments(segs.drop_last())
    } else {
        kept_segments(segs.drop_last()).push(segs.last())
    }
}

/// Where an entry name lands under the extraction root, or `None` when
/// the name is unsafe and the extraction must abort.
pub open spec fn spec_safe_zip_join(base: Seq<Seq<char>>, name: Seq<char>) -> Option<
    Seq<Seq<char>>,
> {
    if entry_name_safe(name) {
        Some(base + kept_segments(entry_segments(name)))
    } else {
        None
    }
}

/// Split an entry name at its separators.
fn split_entry_name(name: &Vec<char>) -> (r: Vec<Vec<char>>)
    ensures
        r.deep_view() == entry_segments(name@),
{
    let mut segs: Vec<Vec<char>> = Vec::new();
    segs.push(Vec::new());
    proof {
        assert(segs.deep_view() =~~= entry_segments(name@.take(0)));
    }
    let mut i: usize = 0;
    while i < name.len()
        invariant
            i <= name@.len(),
            segs.deep_view() == entry_segments(name@.take(i as int)),
            segs@.len() >= 1,
        decreases name@.len() - i,
    {
        proof {
            assert(name@.take(i + 1).drop_last() =~= name@.take(i as int));
            assert(name@.take(i + 1).last() == name@[i as int]);
        }
        let ghost pre = segs.deep_view();
        let c = name[i];
        if c == '/' || c == '\\' {
            segs.push(Vec::new());
            proof {
                assert(segs.deep_view() =~~= pre.push(Seq::empty()));
            }
        } else {
            let ghost lastseg = segs.deep_view().last();
            let mut lastv = match segs.pop() {
                Some(v) => v,
                None => Vec::new(),
            };
            lastv.push(c);
            segs.push(lastv);
            proof {
                assert(segs.deep_view() =~~= pre.update(
                    pre.len() - 1,
                    lastseg.push(name@[i as int]),
                ));
            }
        }
        i = i + 1;
        proof {
            assert(segs.deep_view() == entry_segments(name@.take(i as int)));
        }
    }
    proof {
        assert(name@.take(name@.len() as int) =~= name@);
    }
    segs
}

/// Join an archive entry name onto the extraction root, refusing any name
/// that could land outside it: a leading separator, a parent-directory
/// segment, or a drive prefix aborts with `None`; empty and
/// current-directory segments are dropped.
pub fn safe_zip_join(base: &AppPath, name: &Vec<char>) -> (r: Option<AppPath>)
    ensures
        match r {
            Some(p) => spec_safe_zip_join(base@, name@) == Some(p@),
            None => spec_safe_zip_join(base@, name@) is None,
        },
{
    if name.len() > 0 && (name[0] == '/' || name[0] == '\\') {
        return None;
    }
    let segs = split_entry_name(name);
    let mut out = base.clone();
    let mut i: usize = 0;
    while i < segs.len()
        invariant
            i <= segs@.len(),
            segs.deep_view() == entry_segments(name@),
            out@ == base@ + kept_segments(entry_segments(name@).take(i as int)),
            forall|j: int|
                0 <= j < i ==> !segment_unsafe(#[trigger] entry_segments(name@)[j]),
        decreases segs@.len() - i,
    {
        proof {
            assert(entry_segments(name@).take(i + 1).drop_last() =~= entry_segments(
                name@,
            ).take(i as int));
            assert(entry_segments(name@).take(i + 1).last() == entry_segments(name@)[i as int]);
        }
        let seg = &segs[i];
        let ghost gseg = entry_segments(name@)[i as int];
        if seg.len() == 2 && seg[0] == '.' && seg[1] == '.' {
            proof {
                assert(gseg =~= seq!['.', '.']);
            }
            return None;
        }
        let mut has_colon = false;
        let mut k: usize = 0;
        while k < seg.len()
            invariant
                k <= seg@.len(),
                gseg == seg@,
                has_colon == exists|m: int| 0 <= m < k && gseg[m] == ':',
            decreases seg@.len() - k,
        {
            if seg[k] == ':' {
                has_colon = true;
                proof {
                    assert(gseg[k as int] == ':');
                }
                k = seg.len();
            } else {
                k = k + 1;
            }
        }
        if has_colon {
            proof {
                assert(gseg.contains(':'));
            }
            return None;
        }
        proof {
            assert(!gseg.contains(':')) by {
                if gseg.contains(':') {
                    let m = choose|m: int| 0 <= m < gseg.len() && gseg[m] == ':';
                    assert(false);
                }
            }
            assert(!segment_unsafe(gseg)) by {
                assert(gseg != seq!['.', '.']) by {
                    if gseg == seq!['.', '.'] {
                        assert(gseg.len() == 2 && gseg[0] == '.' && gseg[1] == '.');
                    }
                }
            }
        }
        let skip = seg.len() == 0 || (seg.len() == 1 && seg[0] == '.');
        if skip {
            proof {
                assert(segment_skipped(gseg)) by {
                    if gseg.len() == 1 && gseg[0] == '.' {
                        assert(gseg =~= seq!['.']);
                    }
                }
                assert(kept_segments(entry_segments(name@).take(i + 1)) =~= kept_segments(
                    entry_segments(name@).take(i as int),
                ));
            }
        } else {
            let part = string_from_chars(seg);
            out = out.join_string(part);
            proof {
                assert(!segment_skipped(gseg)) by {
                    if gseg == seq!['.'] {
                        assert(gseg.len() == 1 && gseg[0] == '.');
                    }
                }
                assert(out@ =~= base@ + kept_segments(entry_segments(name@).take(i + 1)));
            }
        }
        i = i + 1;
    }
    proof {
        assert(entry_segments(name@).take(entry_segments(name@).len() as int) =~= entry_segments(
            name@,
        ));
        assert(entry_name_safe(name@));
    }
    Some(out)
}

} // verus!
