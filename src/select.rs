//! Choice of the encoded file to fetch among those that a track offers.
use vstd::prelude::*;

verus! {

/// The encodings that the catalogue can offer for a track.
#[derive(Clone, Copy, Debug, PartialEq, Eq, Structural)]
pub enum FileFormat {
    OggVorbis96,
    OggVorbis160,
    OggVorbis320,
    Mp3_256,
    Mp3_320,
    Mp3_160,
    Mp3_96,
    Mp3_160Enc,
    Mp4_128Dual,
    Other3,
    Aac160,
    Aac320,
    Mp4_128,
    Other5,
}

/// The handle of one encoded file of a track.
#[derive(Clone, Copy, Debug)]
pub struct FileId {
    pub bytes: [u8; 20],
}

/// The file that `files` gives for `format`: the first entry of that format.
pub open spec fn file_for(files: Seq<(FileFormat, FileId)>, format: FileFormat) -> Option<FileId>
    decreases files.len(),
{
    if files.len() == 0 {
        None
    } else if files[0].0 == format {
        Some(files[0].1)
    } else {
        file_for(files.drop_first(), format)
    }
}

/// The file of the best vorbis tier that `files` offers: 320, then 160, then 96 kbit/s.
pub open spec fn best_file(files: Seq<(FileFormat, FileId)>) -> Option<FileId> {
    if file_for(files, FileFormat::OggVorbis320) is Some {
        file_for(files, FileFormat::OggVorbis320)
    } else if file_for(files, FileFormat::OggVorbis160) is Some {
        file_for(files, FileFormat::OggVorbis160)
    } else {
        file_for(files, FileFormat::OggVorbis96)
    }
}

proof fn lemma_file_for_skip(files: Seq<(FileFormat, FileId)>, format: FileFormat, i: int)
    requires
        0 <= i < files.len(),
        forall|j: int| 0 <= j < i ==> files[j].0 != format,
    ensures
        file_for(files, format) == file_for(files.subrange(i, files.len() as int), format),
    decreases i,
{
    if i > 0 {
        lemma_file_for_skip(files.drop_first(), format, i - 1);
        assert(files.drop_first().subrange(i - 1, files.len() - 1) =~= files.subrange(i, files.len() as int));
    } else {
        assert(files.subrange(0, files.len() as int) =~= files);
    }
}

/// Looks `format` up among the entries of `files`.
pub fn file_of_format(files: &Vec<(FileFormat, FileId)>, format: FileFormat) -> (r: Option<FileId>)
    ensures
        r == file_for(files@, format),
{
    let mut i: usize = 0;
    while i < files.len()
        invariant
            i <= files.len(),
            forall|j: int| 0 <= j < i ==> files@[j].0 != format,
        decreases files.len() - i,
    {
        if files[i].0 == format {
            proof {
                lemma_file_for_skip(files@, format, i as int);
            }
            return Some(files[i].1);
        }
        i = i + 1;
    }
    proof {
        lemma_file_for_none(files@, format);
    }
    None
}

proof fn lemma_file_for_none(files: Seq<(FileFormat, FileId)>, format: FileFormat)
    requires
        forall|j: int| 0 <= j < files.len() ==> files[j].0 != format,
    ensures
        file_for(files, format) is None,
    decreases files.len(),
{
    if files.len() > 0 {
        lemma_file_for_none(files.drop_first(), format);
    }
}

/// The vorbis tiers, from the highest bit rate down.
pub open spec fn vorbis_tiers() -> Seq<FileFormat> {
    seq![FileFormat::OggVorbis320, FileFormat::OggVorbis160, FileFormat::OggVorbis96]
}

/// `files` holds an entry of `format`.
pub open spec fn offers(files: Seq<(FileFormat, FileId)>, format: FileFormat) -> bool {
    exists|i: int| 0 <= i < files.len() && files[i].0 == format
}

proof fn lemma_file_for_entry(files: Seq<(FileFormat, FileId)>, format: FileFormat)
    ensures
        file_for(files, format) is None <==> !offers(files, format),
        file_for(files, format) matches Some(id) ==> files.contains((format, id)),
    decreases files.len(),
{
    if files.len() > 0 {
        let rest = files.drop_first();
        lemma_file_for_entry(rest, format);
        if files[0].0 != format {
            if offers(files, format) {
                let i = choose|i: int| 0 <= i < files.len() && files[i].0 == format;
                assert(rest[i - 1].0 == format);
            }
            if offers(rest, format) {
                let i = choose|i: int| 0 <= i < rest.len() && rest[i].0 == format;
                assert(files[i + 1].0 == format);
            }
            if file_for(files, format) is Some {
                let id = file_for(files, format)->0;
                let i = choose|i: int| 0 <= i < rest.len() && rest[i] == (format, id);
                assert(files[i + 1] == (format, id));
            }
        } else {
            assert(files[0] == (format, files[0].1));
        }
    }
}

/// The file selected is the entry of the first vorbis tier, from the highest
/// bit rate down, that the track offers; when it offers none of them, there
/// is none.
pub proof fn lemma_highest_tier_selected(files: Seq<(FileFormat, FileId)>)
    ensures
        forall|j: int|
            0 <= j < vorbis_tiers().len() && #[trigger] offers(files, vorbis_tiers()[j]) && (
            forall|k: int| 0 <= k < j ==> !offers(files, vorbis_tiers()[k])) ==> (best_file(
                files,
            ) matches Some(id) && files.contains((vorbis_tiers()[j], id))),
        (forall|j: int| 0 <= j < vorbis_tiers().len() ==> !offers(files, vorbis_tiers()[j]))
            ==> best_file(files) is None,
{
    let t = vorbis_tiers();
    lemma_file_for_entry(files, t[0]);
    lemma_file_for_entry(files, t[1]);
    lemma_file_for_entry(files, t[2]);
    assert forall|j: int|
        0 <= j < t.len() && #[trigger] offers(files, t[j]) && (forall|k: int|
            0 <= k < j ==> !offers(files, t[k])) implies (best_file(files) matches Some(id)
        && files.contains((t[j], id))) by {
        if j >= 1 {
            assert(!offers(files, t[0]));
        }
        if j >= 2 {
            assert(!offers(files, t[1]));
        }
    }
    if forall|j: int| 0 <= j < t.len() ==> !offers(files, t[j]) {
        assert(!offers(files, t[0]));
        assert(!offers(files, t[1]));
        assert(!offers(files, t[2]));
    }
}

/// Chooses the file to fetch: the highest vorbis tier present wins, and
/// `None` when the track offers none of the vorbis tiers.
pub fn select(files: &Vec<(FileFormat, FileId)>) -> (r: Option<FileId>)
    ensures
        r == best_file(files@),
        r is None <==> (file_for(files@, FileFormat::OggVorbis320) is None
            && file_for(files@, FileFormat::OggVorbis160) is None
            && file_for(files@, FileFormat::OggVorbis96) is None),
{
    let best = file_of_format(files, FileFormat::OggVorbis320);
    if best.is_some() {
        return best;
    }
    let middle = file_of_format(files, FileFormat::OggVorbis160);
    if middle.is_some() {
        return middle;
    }
    file_of_format(files, FileFormat::OggVorbis96)
}

} // verus!
