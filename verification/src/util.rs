mod cd_manager;
mod name_path;

pub use cd_manager::cd_base;
pub use cd_manager::cd_confined;
pub use cd_manager::cd_run;
pub use cd_manager::cd_step;
pub use cd_manager::cd_wf;
pub use cd_manager::clone_segments;
pub use cd_manager::frames_sum;
pub use cd_manager::lemma_scope_restores;
pub use cd_manager::scope_inv;
pub use cd_manager::CdManager;
pub use cd_manager::CdModel;
pub use cd_manager::CdOp;
pub use name_path::raw_split;
pub use name_path::resolved_path;
pub use name_path::split_path;
pub use name_path::NameOrPath;

use vstd::prelude::*;

verus! {

/// Whether a split-off path component is kept: empty components, the
/// current- and parent-directory markers, and components holding a colon
/// (a drive or stream marker on some platforms, where pushing one onto a
/// path can re-root it) are dropped.
pub open spec fn seg_keep(seg: Seq<char>) -> bool {
    seg.len() > 0 && seg != seq!['.'] && seg != seq!['.', '.'] && !seg.contains(':')
}

/// A segment that may stand in a sanitized relative path: a kept component
/// that holds no separator of either kind and no null byte.
pub open spec fn is_normal_seg(seg: Seq<char>) -> bool {
    seg_keep(seg) && !seg.contains('/') && !seg.contains('\\') && !seg.contains('\0')
}

/// Whether a character separates path components in a raw entry name:
/// both separator conventions count, whatever platform packed the archive.
pub open spec fn is_sep(c: char) -> bool {
    c == '/' || c == '\\'
}

/// Sanitization of a raw entry name, processing the characters left to
/// right: `cur` is the component read so far. The name is truncated at the
/// first null byte, split on separators of either kind, and every
/// component that is not a plain segment is dropped.
pub open spec fn sanitize_rec(s: Seq<char>, cur: Seq<char>) -> Seq<Seq<char>>
    decreases s.len(),
{
    if s.len() == 0 || s.first() == '\0' {
        if seg_keep(cur) {
            seq![cur]
        } else {
            Seq::empty()
        }
    } else if is_sep(s.first()) {
        (if seg_keep(cur) {
            seq![cur]
        } else {
            Seq::empty()
        }) + sanitize_rec(s.skip(1), Seq::empty())
    } else {
        sanitize_rec(s.skip(1), cur.push(s.first()))
    }
}

/// The filesystem-safe relative path for a raw (possibly adversarial)
/// archive entry name.
pub open spec fn sanitize_spec(s: Seq<char>) -> Seq<Seq<char>> {
    sanitize_rec(s, Seq::empty())
}

proof fn lemma_push_keeps_missing(cur: Seq<char>, c: char, x: char)
    requires
        !cur.contains(x),
        c != x,
    ensures
        !cur.push(c).contains(x),
{
    let cur2 = cur.push(c);
    if cur2.contains(x) {
        let k = choose|k: int| 0 <= k < cur2.len() && cur2[k] == x;
        if k < cur.len() {
            assert(cur[k] == x);
            assert(cur.contains(x));
        } else {
            assert(cur2[k] == c);
        }
    }
}

proof fn lemma_sanitize_rec_normal(s: Seq<char>, cur: Seq<char>)
    requires
        !cur.contains('/'),
        !cur.contains('\\'),
        !cur.contains('\0'),
    ensures
        forall|i: int|
            0 <= i < sanitize_rec(s, cur).len() ==> is_normal_seg(#[trigger] sanitize_rec(
                s,
                cur,
            )[i]),
    decreases s.len(),
{
    let r = sanitize_rec(s, cur);
    if s.len() == 0 || s.first() == '\0' {
        if seg_keep(cur) {
            assert(r =~= seq![cur]);
            assert forall|i: int| 0 <= i < r.len() implies is_normal_seg(r[i]) by {
                assert(r[i] == cur);
            };
        }
    } else if is_sep(s.first()) {
        lemma_sanitize_rec_normal(s.skip(1), Seq::empty());
        let head: Seq<Seq<char>> = if seg_keep(cur) {
            seq![cur]
        } else {
            Seq::empty()
        };
        let tail = sanitize_rec(s.skip(1), Seq::empty());
        assert(r =~= head + tail);
        assert forall|i: int| 0 <= i < r.len() implies is_normal_seg(r[i]) by {
            if i < head.len() {
                assert(r[i] == cur);
            } else {
                assert(r[i] == tail[i - head.len()]);
            }
        };
    } else {
        let c = s.first();
        let cur2 = cur.push(c);
        lemma_push_keeps_missing(cur, c, '/');
        lemma_push_keeps_missing(cur, c, '\\');
        lemma_push_keeps_missing(cur, c, '\0');
        lemma_sanitize_rec_normal(s.skip(1), cur2);
        let rr = sanitize_rec(s.skip(1), cur2);
        assert(r == rr);
        assert forall|i: int| 0 <= i < r.len() implies is_normal_seg(r[i]) by {
            assert(is_normal_seg(rr[i]));
        };
    }
}

/// Traversal safety of sanitization: every segment of a sanitized name is a
/// plain one — never empty, never a parent- or current-directory marker,
/// and free of separators and null bytes.
pub proof fn lemma_sanitize_normal(s: Seq<char>)
    ensures
        forall|i: int|
            0 <= i < sanitize_spec(s).len() ==> is_normal_seg(#[trigger] sanitize_spec(s)[i]),
{
    lemma_sanitize_rec_normal(s, Seq::empty());
}

/// Whether `filename[start..end]` holds a colon.
fn has_colon(filename: &str, start: usize, end: usize) -> (r: bool)
    requires
        start <= end <= filename@.len(),
    ensures
        r == filename@.subrange(start as int, end as int).contains(':'),
{
    let ghost seg = filename@.subrange(start as int, end as int);
    let mut k = start;
    while k < end
        invariant
            start <= k <= end <= filename@.len(),
            seg == filename@.subrange(start as int, end as int),
            forall|j: int| 0 <= j < k - start ==> seg[j] != ':',
        decreases end - k,
    {
        if filename.get_char(k) == ':' {
            proof {
                assert(seg[k - start as int] == ':');
                assert(seg.contains(':'));
            }
            return true;
        }
        k += 1;
    }
    proof {
        if seg.contains(':') {
            let j = choose|j: int| 0 <= j < seg.len() && seg[j] == ':';
            assert(seg[j] != ':');
        }
    }
    false
}

/// Appends `filename[start..end]` to `out` when that component is kept.
fn push_kept(out: &mut Vec<String>, filename: &str, start: usize, end: usize)
    requires
        start <= end <= filename@.len(),
    ensures
        final(out).deep_view() == old(out).deep_view() + (if seg_keep(
            filename@.subrange(start as int, end as int),
        ) {
            seq![filename@.subrange(start as int, end as int)]
        } else {
            Seq::<Seq<char>>::empty()
        }),
{
    let ghost seg = filename@.subrange(start as int, end as int);
    let len = end - start;
    let keep: bool = if len == 0 {
        proof {
            assert(!seg_keep(seg));
        }
        false
    } else if len == 1 && filename.get_char(start) == '.' {
        proof {
            assert(seg =~= seq!['.']);
        }
        false
    } else if len == 2 && filename.get_char(start) == '.' && filename.get_char(start + 1) == '.' {
        proof {
            assert(seg =~= seq!['.', '.']);
        }
        false
    } else if has_colon(filename, start, end) {
        false
    } else {
        proof {
            if seg =~= seq!['.'] {
                assert(seg.len() == 1 && seg[0] == '.');
            }
            if seg =~= seq!['.', '.'] {
                assert(seg.len() == 2 && seg[0] == '.' && seg[1] == '.');
            }
        }
        true
    };
    if keep {
        let ghost before = out.deep_view();
        let sub = filename.substring_char(start, end);
        out.push(sub.to_owned());
        proof {
            assert(final(out).deep_view() =~= before + seq![seg]);
        }
    } else {
        proof {
            assert(final(out).deep_view() =~= old(out).deep_view());
        }
    }
}

/// Maps a raw archive entry name to a filesystem-safe relative path:
/// truncates at the first null byte, splits on both separator kinds, and
/// drops every component that is empty, a current- or parent-directory
/// marker, or a possible drive marker (it holds a colon), so the result
/// can never escape the directory it is joined to.
pub fn sanitize_filename(filename: &str) -> (r: Vec<String>)
    ensures
        r.deep_view() == sanitize_spec(filename@),
{
    let ghost s = filename@;
    let n = filename.unicode_len();
    let mut out: Vec<String> = Vec::new();
    let mut start: usize = 0;
    let mut i: usize = 0;
    proof {
        assert(s.skip(0) =~= s);
        assert(s.subrange(0, 0) =~= Seq::<char>::empty());
        assert(out.deep_view() =~= Seq::<Seq<char>>::empty());
        assert(Seq::<Seq<char>>::empty() + sanitize_rec(s, Seq::empty()) =~= sanitize_rec(
            s,
            Seq::empty(),
        ));
    }
    while i < n
        invariant
            0 <= start <= i <= n,
            n == s.len(),
            s == filename@,
            out.deep_view() + sanitize_rec(s.skip(i as int), s.subrange(start as int, i as int))
                =~= sanitize_spec(s),
        decreases n - i,
    {
        let ghost cur = s.subrange(start as int, i as int);
        let ghost rest = s.skip(i as int);
        let ghost before = out.deep_view();
        proof {
            assert(rest.first() == s[i as int]);
            assert(rest.skip(1) =~= s.skip(i + 1));
        }
        let c = filename.get_char(i);
        if c == '\0' {
            push_kept(&mut out, filename, start, i);
            proof {
                let head: Seq<Seq<char>> = if seg_keep(cur) {
                    seq![cur]
                } else {
                    Seq::empty()
                };
                assert(sanitize_rec(rest, cur) == head);
                assert(out.deep_view() =~= before + head);
                assert(out.deep_view() =~= sanitize_spec(s));
            }
            return out;
        } else if c == '/' || c == '\\' {
            push_kept(&mut out, filename, start, i);
            start = i + 1;
            proof {
                let head: Seq<Seq<char>> = if seg_keep(cur) {
                    seq![cur]
                } else {
                    Seq::empty()
                };
                assert(sanitize_rec(rest, cur) == head + sanitize_rec(rest.skip(1), Seq::empty()));
                assert(out.deep_view() =~= before + head);
                assert(s.subrange(start as int, (i + 1) as int) =~= Seq::<char>::empty());
                assert(out.deep_view() + sanitize_rec(s.skip(i + 1), Seq::empty()) =~= before + (
                head + sanitize_rec(rest.skip(1), Seq::empty())));
            }
        } else {
            proof {
                assert(cur.push(c) =~= s.subrange(start as int, (i + 1) as int));
                assert(sanitize_rec(rest, cur) == sanitize_rec(rest.skip(1), cur.push(c)));
            }
        }
        i += 1;
    }
    let ghost cur = s.subrange(start as int, n as int);
    let ghost before = out.deep_view();
    push_kept(&mut out, filename, start, n);
    proof {
        assert(s.skip(n as int) =~= Seq::<char>::empty());
        let head: Seq<Seq<char>> = if seg_keep(cur) {
            seq![cur]
        } else {
            Seq::empty()
        };
        assert(sanitize_rec(s.skip(n as int), cur) == head);
        assert(out.deep_view() =~= before + head);
        assert(out.deep_view() =~= sanitize_spec(s));
    }
    out
}

/// One entry of a zip payload, as handed over by the archive reader: the
/// raw (publisher-controlled) name, the decompressed contents, and the
/// POSIX permission bits where the archive records them.
pub struct RawEntry {
    pub name: String,
    pub data: Vec<u8>,
    pub mode: Option<u32>,
}

impl View for RawEntry {
    type V = (Seq<char>, Seq<u8>, Option<u32>);

    open spec fn view(&self) -> Self::V {
        (self.name@, self.data@, self.mode)
    }
}

impl DeepView for RawEntry {
    type V = (Seq<char>, Seq<u8>, Option<u32>);

    open spec fn deep_view(&self) -> Self::V {
        self@
    }
}

/// The central-directory extra-data field of each entry of an in-memory
/// zip payload, in index order; `None` when the central directory or an
/// entry's local header cannot be read. A function of the bytes alone.
pub uninterp spec fn zip_extra_table(b: Seq<u8>) -> Option<Seq<Seq<u8>>>;

/// What the `zip` crate parses an in-memory payload into: the entries in
/// index order, each as raw name, decompressed contents and optional mode
/// bits; `None` when the archive cannot be read. Parsing is a function of
/// the bytes alone.
pub uninterp spec fn zip_entry_table(b: Seq<u8>) -> Option<
    Seq<(Seq<char>, Seq<u8>, Option<u32>)>,
>;

/// Relies on the `zip` crate, version 0.6: `ZipArchive::new` parses the
/// central directory and `by_index_raw` opens each entry without touching
/// its decryption or decompression paths, so this call cannot hit the
/// abort that [`read_zip_entries`] screens for; `ZipFile::extra_data`
/// hands out the entry's raw extra field. `by_index_raw` only seeks and
/// reads the in-memory cursor, whose reads bound every offset by the
/// buffer's length before it is used in further sums, so its offset
/// arithmetic cannot overflow either. All of it is deterministic in the
/// payload, so the result is named by [`zip_extra_table`].
#[verifier::external_body]
fn read_zip_extras(buf: &[u8]) -> (r: Result<Vec<Vec<u8>>, crate::error::Error>)
    ensures
        r is Ok <==> zip_extra_table(buf@) is Some,
        r matches Ok(v) ==> zip_extra_table(buf@) == Some(v.deep_view()),
        r matches Err(e) ==> e matches crate::error::Error::CorruptArchive,
{
    let corrupt = crate::error::Error::CorruptArchive;
    let mut archive = zip::ZipArchive::new(std::io::Cursor::new(buf)).or(Err(corrupt))?;
    let mut out = Vec::new();
    for i in 0..archive.len() {
        let file = archive.by_index_raw(i).or(Err(crate::error::Error::CorruptArchive))?;
        out.push(file.extra_data().to_vec());
    }
    Ok(out)
}

/// Whether an extra-data field holds a block the screen must reject: the
/// AES header id, or the zip64 extended-information id.
///
/// The field is a run of blocks, each a two-byte little-endian id and a
/// two-byte little-endian length followed by that many payload bytes; the
/// run stops where no full block header is left. For every block this
/// predicate lets through, the `zip` crate's own walk over the same bytes
/// advances by one block header plus the declared length, exactly as this
/// walk does. Only a zip64 block can advance the crate's walk differently
/// — its parser reads sentinel-valued size fields even past the block's
/// declared length and never rewinds — so the walk stops looking behind
/// the first AES or zip64 id it meets and reports the field as suspect.
pub open spec fn has_suspect_block(extra: Seq<u8>) -> bool
    decreases extra.len(),
{
    if extra.len() < 4 {
        false
    } else {
        let id = extra[0] + 256 * extra[1];
        let len = extra[2] + 256 * extra[3];
        id == 0x9901 || id == 0x0001 || (4 + len <= extra.len() && has_suspect_block(
            extra.skip(4 + len),
        ))
    }
}

/// No entry's extra-data field carries an AES or zip64 block.
pub open spec fn extras_screened(extras: Seq<Seq<u8>>) -> bool {
    forall|i: int| 0 <= i < extras.len() ==> !has_suspect_block(#[trigger] extras[i])
}

/// Whether the extra-data field holds an AES or zip64 block.
fn suspect_marked(extra: &Vec<u8>) -> (r: bool)
    ensures
        r == has_suspect_block(extra@),
{
    let n = extra.len();
    let mut pos: usize = 0;
    proof {
        assert(extra@.skip(0) =~= extra@);
    }
    while n >= 4 && pos <= n - 4
        invariant
            pos <= n,
            n == extra@.len(),
            has_suspect_block(extra@) == has_suspect_block(extra@.skip(pos as int)),
        decreases n - pos,
    {
        let ghost rest = extra@.skip(pos as int);
        let id: usize = extra[pos] as usize + 256 * (extra[pos + 1] as usize);
        let len: usize = extra[pos + 2] as usize + 256 * (extra[pos + 3] as usize);
        proof {
            assert(rest[0] == extra@[pos as int]);
            assert(rest[1] == extra@[pos as int + 1]);
            assert(rest[2] == extra@[pos as int + 2]);
            assert(rest[3] == extra@[pos as int + 3]);
        }
        if id == 0x9901 || id == 0x0001 {
            return true;
        }
        if len > n - pos - 4 {
            proof {
                assert(!(4 + len <= rest.len()));
            }
            return false;
        }
        proof {
            assert(rest.skip(4 + len as int) =~= extra@.skip(pos + 4 + len));
        }
        pos = pos + 4 + len;
    }
    false
}

/// Whether any entry's extra-data field carries an AES or zip64 block.
fn any_suspect_marked(extras: &Vec<Vec<u8>>) -> (r: bool)
    ensures
        r == !extras_screened(extras.deep_view()),
{
    let n = extras.len();
    let mut i: usize = 0;
    while i < n
        invariant
            i <= n,
            n == extras@.len(),
            forall|j: int| 0 <= j < i ==> !has_suspect_block(#[trigger] extras.deep_view()[j]),
        decreases n - i,
    {
        let marked = suspect_marked(&extras[i]);
        proof {
            assert(extras.deep_view()[i as int] =~= extras@[i as int]@);
        }
        if marked {
            proof {
                assert(has_suspect_block(extras.deep_view()[i as int]));
            }
            return true;
        }
        i += 1;
    }
    proof {
        assert(extras_screened(extras.deep_view()));
    }
    false
}

/// Relies on the `zip` crate, version 0.6: `ZipArchive::new` parses the
/// central directory of the byte payload, `by_index` opens each entry in
/// index order, `ZipFile::name` gives its raw name, `unix_mode` its
/// recorded POSIX bits, and `Read::read_to_end` its decompressed contents.
/// All of it is deterministic in the payload, so the result is named by
/// [`zip_entry_table`].
///
/// The payload must have been screened first: on an entry whose extra
/// field carries an AES block while its encryption flag is clear,
/// `by_index` aborts instead of failing (this build leaves the `zip`
/// crate's AES feature out, so such an entry reaches an unconditional
/// unwrap inside it). The screen must also see every block the crate's
/// extra-field parser sees, which holds only while no zip64 block
/// desynchronizes the two walks — hence [`has_suspect_block`] rejects
/// both ids. The `requires` leaves the rejected payloads out, and
/// [`read_archive`] establishes it.
#[verifier::external_body]
fn read_zip_entries(buf: &[u8]) -> (r: Result<Vec<RawEntry>, crate::error::Error>)
    requires
        zip_extra_table(buf@) matches Some(es) && extras_screened(es),
    ensures
        r is Ok <==> zip_entry_table(buf@) is Some,
        r matches Ok(v) ==> zip_entry_table(buf@) == Some(v.deep_view()),
        r matches Err(e) ==> e matches crate::error::Error::CorruptArchive,
{
    let corrupt = crate::error::Error::CorruptArchive;
    let mut archive = zip::ZipArchive::new(std::io::Cursor::new(buf)).or(Err(corrupt))?;
    let mut out = Vec::new();
    for i in 0..archive.len() {
        let mut file = archive.by_index(i).or(Err(crate::error::Error::CorruptArchive))?;
        let (name, mode) = (file.name().to_string(), file.unix_mode());
        let mut data = Vec::new();
        std::io::Read::read_to_end(&mut file, &mut data)
            .or(Err(crate::error::Error::CorruptArchive))?;
        out.push(RawEntry { name, data, mode });
    }
    Ok(out)
}

/// What reading an in-memory payload yields once hardened against the
/// archive reader's blind spot: the parsed entries, or `None` when the
/// payload is unreadable or any entry's extra field carries an AES or
/// zip64 block. Without AES support an AES-marked entry cannot be read;
/// and past a zip64 block the extra-field walks desynchronize, so an AES
/// block could hide behind one — both are deliberately over-rejected and
/// the whole payload counts as corrupt.
pub open spec fn zip_read(b: Seq<u8>) -> Option<Seq<(Seq<char>, Seq<u8>, Option<u32>)>> {
    match zip_extra_table(b) {
        Some(es) => if extras_screened(es) {
            zip_entry_table(b)
        } else {
            None
        },
        None => None,
    }
}

/// Reads an in-memory zip payload into its entries, screening each
/// entry's extra field first so that AES-marked entries — and zip64
/// blocks, behind which an AES block could hide from the screen — are
/// reported as [`Error::CorruptArchive`] instead of reaching the archive
/// reader's abort path.
fn read_archive(buf: &[u8]) -> (r: Result<Vec<RawEntry>, crate::error::Error>)
    ensures
        r is Ok <==> zip_read(buf@) is Some,
        r matches Ok(v) ==> zip_read(buf@) == Some(v.deep_view()),
        r matches Err(e) ==> e matches crate::error::Error::CorruptArchive,
{
    let extras = match read_zip_extras(buf) {
        Ok(v) => v,
        Err(e) => {
            return Err(e);
        },
    };
    if any_suspect_marked(&extras) {
        return Err(crate::error::Error::CorruptArchive);
    }
    read_zip_entries(buf)
}

/// One filesystem effect of an unpack or relocation plan. Paths are
/// absolute segment lists rooted wherever the caller's destination is.
#[derive(Debug)]
pub enum FsAction {
    MakeDir { path: Vec<String> },
    WriteFile { path: Vec<String>, data: Vec<u8>, mode: Option<u32> },
    Rename { from: Vec<String>, to: Vec<String> },
    RemoveAll { path: Vec<String> },
}

/// Model of an [`FsAction`].
#[verifier::ext_equal]
pub ghost enum ActModel {
    MakeDir { path: Seq<Seq<char>> },
    WriteFile { path: Seq<Seq<char>>, data: Seq<u8>, mode: Option<u32> },
    Rename { from: Seq<Seq<char>>, to: Seq<Seq<char>> },
    RemoveAll { path: Seq<Seq<char>> },
}

impl View for FsAction {
    type V = ActModel;

    open spec fn view(&self) -> ActModel {
        match self {
            FsAction::MakeDir { path } => ActModel::MakeDir { path: path.deep_view() },
            FsAction::WriteFile { path, data, mode } => ActModel::WriteFile {
                path: path.deep_view(),
                data: data@,
                mode: *mode,
            },
            FsAction::Rename { from, to } => ActModel::Rename {
                from: from.deep_view(),
                to: to.deep_view(),
            },
            FsAction::RemoveAll { path } => ActModel::RemoveAll { path: path.deep_view() },
        }
    }
}

impl DeepView for FsAction {
    type V = ActModel;

    open spec fn deep_view(&self) -> ActModel {
        self@
    }
}

/// The filesystem effects a successful unpack will perform, in entry
/// order, plus the archive's entry count for progress reporting.
pub struct UnpackPlan {
    pub actions: Vec<FsAction>,
    pub entry_count: usize,
}

/// Whether a raw entry name marks a directory: it ends with a separator.
pub open spec fn entry_is_dir(name: Seq<char>) -> bool {
    name.len() > 0 && name.last() == '/'
}

/// The filesystem effect of one archive entry placed at `dest + rel`.
pub open spec fn entry_act(
    e: (Seq<char>, Seq<u8>, Option<u32>),
    dest: Seq<Seq<char>>,
    rel: Seq<Seq<char>>,
) -> ActModel {
    if entry_is_dir(e.0) {
        ActModel::MakeDir { path: dest + rel }
    } else {
        ActModel::WriteFile { path: dest + rel, data: e.1, mode: e.2 }
    }
}

/// The unpack plan for the entries from index `i` on. Each entry's name is
/// sanitized; an entry whose sanitized name is empty, or reduces to the
/// shared prefix when flattening, is skipped; when flattening, an entry
/// whose sanitized name does not carry the shared prefix fails the whole
/// unpack with [`Error::UnexpectedArchiveLayout`].
pub open spec fn plan_from(
    entries: Seq<(Seq<char>, Seq<u8>, Option<u32>)>,
    i: int,
    dest: Seq<Seq<char>>,
    prefix: Seq<Seq<char>>,
    strip: bool,
) -> Result<Seq<ActModel>, crate::error::Error>
    decreases entries.len() - i,
{
    if i < 0 || i >= entries.len() {
        Ok(Seq::empty())
    } else {
        let sanitized = sanitize_spec(entries[i].0);
        if sanitized.len() == 0 {
            plan_from(entries, i + 1, dest, prefix, strip)
        } else if strip && !prefix.is_prefix_of(sanitized) {
            Err(crate::error::Error::UnexpectedArchiveLayout)
        } else {
            let rel = if strip {
                sanitized.skip(prefix.len() as int)
            } else {
                sanitized
            };
            if rel.len() == 0 {
                plan_from(entries, i + 1, dest, prefix, strip)
            } else {
                match plan_from(entries, i + 1, dest, prefix, strip) {
                    Ok(acts) => Ok(seq![entry_act(entries[i], dest, rel)] + acts),
                    Err(e) => Err(e),
                }
            }
        }
    }
}

/// The shared top-level prefix a flattening unpack strips: the first
/// entry's sanitized name.
pub open spec fn plan_prefix(
    entries: Seq<(Seq<char>, Seq<u8>, Option<u32>)>,
    strip: bool,
) -> Seq<Seq<char>> {
    if strip && entries.len() > 0 {
        sanitize_spec(entries[0].0)
    } else {
        Seq::empty()
    }
}

/// The unpack plan for a whole entry table.
pub open spec fn unzip_plan(
    entries: Seq<(Seq<char>, Seq<u8>, Option<u32>)>,
    dest: Seq<Seq<char>>,
    strip: bool,
) -> Result<Seq<ActModel>, crate::error::Error> {
    plan_from(entries, 0, dest, plan_prefix(entries, strip), strip)
}

/// What unpacking a byte payload into `dest` does: the unpack plan of the
/// parsed entries, or [`Error::CorruptArchive`] when the payload is not a
/// readable zip archive (an AES- or zip64-marked entry counts as unreadable, see
/// [`zip_read`]).
pub open spec fn unzip_spec(b: Seq<u8>, dest: Seq<Seq<char>>, strip: bool) -> Result<
    Seq<ActModel>,
    crate::error::Error,
> {
    match zip_read(b) {
        Some(entries) => unzip_plan(entries, dest, strip),
        None => Err(crate::error::Error::CorruptArchive),
    }
}

/// Character-for-character string equality.
pub fn str_eq(a: &str, b: &str) -> (r: bool)
    ensures
        r == (a@ == b@),
{
    let na = a.unicode_len();
    let nb = b.unicode_len();
    if na != nb {
        return false;
    }
    let mut i: usize = 0;
    while i < na
        invariant
            i <= na,
            na == a@.len(),
            na == b@.len(),
            forall|j: int| 0 <= j < i ==> a@[j] == b@[j],
        decreases na - i,
    {
        if a.get_char(i) != b.get_char(i) {
            return false;
        }
        i += 1;
    }
    proof {
        assert(a@ =~= b@);
    }
    true
}

/// An owned copy of a byte buffer.
fn clone_bytes(v: &Vec<u8>) -> (r: Vec<u8>)
    ensures
        r@ == v@,
{
    let mut r: Vec<u8> = Vec::new();
    let n = v.len();
    let mut i: usize = 0;
    while i < n
        invariant
            i <= n,
            n == v@.len(),
            r@ =~= v@.take(i as int),
        decreases n - i,
    {
        r.push(v[i]);
        proof {
            assert(r@ =~= v@.take(i + 1));
        }
        i += 1;
    }
    proof {
        assert(v@.take(n as int) =~= v@);
    }
    r
}

/// Whether the raw entry name ends with a path separator.
fn ends_with_slash(s: &str) -> (r: bool)
    ensures
        r == entry_is_dir(s@),
{
    let n = s.unicode_len();
    if n == 0 {
        false
    } else {
        s.get_char(n - 1) == '/'
    }
}

/// Whether `prefix` is a segment-for-segment prefix of `of`.
fn is_seg_prefix(prefix: &Vec<String>, of: &Vec<String>) -> (r: bool)
    ensures
        r == prefix.deep_view().is_prefix_of(of.deep_view()),
{
    let np = prefix.len();
    if np > of.len() {
        proof {
            assert(!prefix.deep_view().is_prefix_of(of.deep_view()));
        }
        return false;
    }
    let mut i: usize = 0;
    while i < np
        invariant
            i <= np,
            np == prefix@.len(),
            np <= of@.len(),
            forall|j: int| 0 <= j < i ==> prefix.deep_view()[j] == of.deep_view()[j],
        decreases np - i,
    {
        if !(prefix[i] == of[i]) {
            proof {
                assert(prefix.deep_view()[i as int] != of.deep_view()[i as int]);
                assert(!prefix.deep_view().is_prefix_of(of.deep_view()));
            }
            return false;
        }
        i += 1;
    }
    proof {
        assert(prefix.deep_view() =~= of.deep_view().subrange(0, np as int));
    }
    true
}

/// Computes the unpack plan of the given archive entries below the live
/// path of `path_root`, which every call leaves exactly as it found it.
///
/// With `strip` set, the first entry's sanitized name is the presumed
/// shared top-level directory, and every emitted path has that prefix
/// removed. Entries whose sanitized name comes out empty (their whole raw
/// name was root or traversal markers), or equal to the stripped prefix,
/// are skipped rather than treated as an error.
pub fn build_plan(entries: &Vec<RawEntry>, path_root: &mut CdManager, strip: bool) -> (r: Result<
    UnpackPlan,
    crate::error::Error,
>)
    requires
        old(path_root).wf(),
    ensures
        final(path_root)@ == old(path_root)@,
        final(path_root).wf(),
        r matches Ok(p) ==> (unzip_plan(entries.deep_view(), old(path_root)@.segments, strip)
            == Ok::<Seq<ActModel>, crate::error::Error>(p.actions.deep_view())
            && p.entry_count == entries@.len()),
        r matches Err(e) ==> unzip_plan(entries.deep_view(), old(path_root)@.segments, strip)
            == Err::<Seq<ActModel>, crate::error::Error>(e),
{
    let ghost m0 = path_root@;
    let ghost dest = m0.segments;
    let ghost ev = entries.deep_view();
    let n = entries.len();
    let prefix: Vec<String> = if strip && n > 0 {
        sanitize_filename(entries[0].name.as_str())
    } else {
        Vec::new()
    };
    let ghost pfx = plan_prefix(ev, strip);
    proof {
        assert(ev.len() == n);
        if strip && n > 0 {
            assert(ev[0] == entries@[0]@);
            assert(prefix.deep_view() =~= pfx);
        } else {
            assert(prefix.deep_view() =~= pfx);
        }
    }
    let mut actions: Vec<FsAction> = Vec::new();
    let mut i: usize = 0;
    proof {
        let p0 = plan_from(ev, 0, dest, pfx, strip);
        assert(p0 matches Ok(v) ==> actions.deep_view() + v =~= v);
    }
    while i < n
        invariant
            i <= n,
            n == entries@.len(),
            ev == entries.deep_view(),
            pfx == plan_prefix(ev, strip),
            prefix.deep_view() == pfx,
            path_root.wf(),
            m0 == old(path_root)@,
            path_root@ == m0,
            dest == m0.segments,
            plan_from(ev, 0, dest, pfx, strip) == (match plan_from(
                ev,
                i as int,
                dest,
                pfx,
                strip,
            ) {
                Ok(rest) => Ok::<Seq<ActModel>, crate::error::Error>(actions.deep_view() + rest),
                Err(e) => Err::<Seq<ActModel>, crate::error::Error>(e),
            }),
        decreases n - i,
    {
        let ghost sanitized_spec_i = sanitize_spec(ev[i as int].0);
        let entry_name_is_dir = ends_with_slash(entries[i].name.as_str());
        let sanitized = sanitize_filename(entries[i].name.as_str());
        proof {
            assert(ev[i as int] == entries@[i as int]@);
            assert(sanitized.deep_view() == sanitized_spec_i);
            assert(sanitized@.len() == sanitized_spec_i.len());
        }
        if sanitized.len() == 0 {
            // The entire raw name was root or traversal markers: skip it.
        } else {
            let rel: Vec<String>;
            if strip {
                if !is_seg_prefix(&prefix, &sanitized) {
                    proof {
                        assert(plan_from(ev, i as int, dest, pfx, strip) == Err::<
                            Seq<ActModel>,
                            crate::error::Error,
                        >(crate::error::Error::UnexpectedArchiveLayout));
                    }
                    return Err(crate::error::Error::UnexpectedArchiveLayout);
                }
                let mut s2 = sanitized;
                rel = s2.split_off(prefix.len());
                proof {
                    assert(rel.deep_view() =~= sanitized_spec_i.skip(pfx.len() as int));
                }
            } else {
                rel = sanitized;
            }
            let ghost rel_spec = if strip {
                sanitized_spec_i.skip(pfx.len() as int)
            } else {
                sanitized_spec_i
            };
            proof {
                assert(rel.deep_view() == rel_spec);
                assert(rel@.len() == rel_spec.len());
            }
            if rel.len() == 0 {
                // The entry is exactly the stripped prefix: skip it.
            } else {
                let ghost acts_before = actions.deep_view();
                let ghost act = entry_act(ev[i as int], dest, rel_spec);
                path_root.layer();
                path_root.push_parts(&rel);
                let path = path_root.clone_inner();
                proof {
                    assert(path.deep_view() =~= dest + rel_spec);
                }
                if entry_name_is_dir {
                    actions.push(FsAction::MakeDir { path });
                } else {
                    let data = clone_bytes(&entries[i].data);
                    actions.push(FsAction::WriteFile { path, data, mode: entries[i].mode });
                }
                let closed = path_root.end_layer();
                proof {
                    assert(closed is Ok);
                    assert(path_root@.segments =~= m0.segments);
                    assert(path_root@.frames =~= m0.frames);
                    assert(path_root@ =~= m0);
                    assert(actions.deep_view().last() =~= act);
                    assert(actions.deep_view() =~= acts_before + seq![act]);
                    let before = plan_from(ev, i as int, dest, pfx, strip);
                    let after = plan_from(ev, i + 1, dest, pfx, strip);
                    assert(after matches Ok(acts) ==> before == Ok::<
                        Seq<ActModel>,
                        crate::error::Error,
                    >(seq![act] + acts));
                    assert(after matches Ok(acts) ==> acts_before + (seq![act] + acts) =~= (
                    acts_before + seq![act]) + acts);
                }
            }
        }
        proof {
            let before = plan_from(ev, i as int, dest, pfx, strip);
            let after = plan_from(ev, i + 1, dest, pfx, strip);
            if sanitized_spec_i.len() == 0 {
                assert(before == after);
            } else if strip && !pfx.is_prefix_of(sanitized_spec_i) {
                assert(false);
            } else {
                let rel_spec = if strip {
                    sanitized_spec_i.skip(pfx.len() as int)
                } else {
                    sanitized_spec_i
                };
                if rel_spec.len() == 0 {
                    assert(before == after);
                }
            }
        }
        i += 1;
    }
    proof {
        assert(plan_from(ev, n as int, dest, pfx, strip) == Ok::<
            Seq<ActModel>,
            crate::error::Error,
        >(Seq::empty()));
        assert(actions.deep_view() + Seq::<ActModel>::empty() =~= actions.deep_view());
    }
    Ok(UnpackPlan { actions, entry_count: n })
}

/// Opens the byte payload as an in-memory zip archive and computes the
/// unpack plan placing its entries below the live path of `path_root`,
/// which is left exactly as it was. The `into` flag selects flattening:
/// the archive's shared top-level directory is stripped, so its contents
/// land directly at the live path.
///
/// Fails with [`Error::CorruptArchive`] when the payload cannot be parsed,
/// and with [`Error::UnexpectedArchiveLayout`] when flattening meets an
/// entry outside the presumed shared top-level directory.
pub fn unzip(buf: &[u8], path_root: &mut CdManager, into: bool) -> (r: Result<
    UnpackPlan,
    crate::error::Error,
>)
    requires
        old(path_root).wf(),
    ensures
        final(path_root)@ == old(path_root)@,
        final(path_root).wf(),
        r matches Ok(p) ==> (unzip_spec(buf@, old(path_root)@.segments, into) == Ok::<
            Seq<ActModel>,
            crate::error::Error,
        >(p.actions.deep_view()) && (zip_read(buf@) matches Some(es) && p.entry_count
            == es.len())),
        r matches Err(e) ==> unzip_spec(buf@, old(path_root)@.segments, into) == Err::<
            Seq<ActModel>,
            crate::error::Error,
        >(e),
{
    let entries = match read_archive(buf) {
        Ok(v) => v,
        Err(e) => {
            return Err(e);
        },
    };
    match build_plan(&entries, path_root, into) {
        Ok(p) => Ok(p),
        Err(e) => Err(e),
    }
}

/// Whether `path` stays inside `dest`: it extends `dest`, and every added
/// segment is a plain one — no empty, current- or parent-directory
/// component, no separator, no null byte.
pub open spec fn path_under(path: Seq<Seq<char>>, dest: Seq<Seq<char>>) -> bool {
    &&& path.len() >= dest.len()
    &&& path.take(dest.len() as int) == dest
    &&& forall|j: int| dest.len() <= j < path.len() ==> is_normal_seg(#[trigger] path[j])
}

/// The path an action touches (for a rename, where it moves from).
pub open spec fn act_path(a: ActModel) -> Seq<Seq<char>> {
    match a {
        ActModel::MakeDir { path } => path,
        ActModel::WriteFile { path, .. } => path,
        ActModel::Rename { from, .. } => from,
        ActModel::RemoveAll { path } => path,
    }
}

proof fn lemma_plan_from_confined(
    entries: Seq<(Seq<char>, Seq<u8>, Option<u32>)>,
    i: int,
    dest: Seq<Seq<char>>,
    prefix: Seq<Seq<char>>,
    strip: bool,
)
    ensures
        plan_from(entries, i, dest, prefix, strip) matches Ok(acts) ==> forall|k: int|
            0 <= k < acts.len() ==> path_under(act_path(#[trigger] acts[k]), dest),
    decreases entries.len() - i,
{
    if i < 0 || i >= entries.len() {
    } else {
        lemma_plan_from_confined(entries, i + 1, dest, prefix, strip);
        let sanitized = sanitize_spec(entries[i].0);
        lemma_sanitize_normal(entries[i].0);
        if sanitized.len() == 0 {
        } else if strip && !prefix.is_prefix_of(sanitized) {
        } else {
            let rel = if strip {
                sanitized.skip(prefix.len() as int)
            } else {
                sanitized
            };
            if rel.len() == 0 {
            } else {
                match plan_from(entries, i + 1, dest, prefix, strip) {
                    Ok(rest) => {
                        let act = entry_act(entries[i], dest, rel);
                        assert(path_under(act_path(act), dest)) by {
                            let p = dest + rel;
                            assert(p.take(dest.len() as int) =~= dest);
                            assert(forall|j: int|
                                dest.len() <= j < p.len() ==> #[trigger] p[j] == rel[j
                                    - dest.len()]);
                            assert(forall|j: int|
                                0 <= j < rel.len() ==> is_normal_seg(#[trigger] rel[j])) by {
                                if strip {
                                    assert(forall|j: int|
                                        0 <= j < rel.len() ==> #[trigger] rel[j] == sanitized[j
                                            + prefix.len()]);
                                }
                            };
                        };
                        let acts = seq![act] + rest;
                        assert(plan_from(entries, i, dest, prefix, strip) == Ok::<
                            Seq<ActModel>,
                            crate::error::Error,
                        >(acts));
                        assert(forall|k: int|
                            0 <= k < acts.len() ==> path_under(act_path(#[trigger] acts[k]), dest))
                            by {
                            assert(acts[0] == act);
                            assert(forall|k: int| 1 <= k < acts.len() ==> acts[k] == rest[k - 1]);
                        };
                    },
                    Err(_) => {},
                }
            }
        }
    }
}

/// Path-traversal safety of unpacking: every action of a successful unpack
/// plan touches a path that stays inside the destination — no sanitized
/// entry name can escape it, whatever root markers, parent-directory
/// markers or null bytes its raw name held.
pub proof fn lemma_unzip_plan_confined(
    entries: Seq<(Seq<char>, Seq<u8>, Option<u32>)>,
    dest: Seq<Seq<char>>,
    strip: bool,
)
    ensures
        unzip_plan(entries, dest, strip) matches Ok(acts) ==> forall|k: int|
            0 <= k < acts.len() ==> path_under(act_path(#[trigger] acts[k]), dest),
{
    lemma_plan_from_confined(entries, 0, dest, plan_prefix(entries, strip), strip);
}

/// The actions of a flattening unpack whose entries all share the first
/// entry's sanitized name as a prefix: each remaining entry lands at the
/// destination plus its sanitized name with that shared prefix removed;
/// entries that reduce to the prefix itself are skipped.
pub open spec fn stripped_acts(
    entries: Seq<(Seq<char>, Seq<u8>, Option<u32>)>,
    i: int,
    dest: Seq<Seq<char>>,
    prefix: Seq<Seq<char>>,
) -> Seq<ActModel>
    decreases entries.len() - i,
{
    if i < 0 || i >= entries.len() {
        Seq::empty()
    } else {
        let rel = sanitize_spec(entries[i].0).skip(prefix.len() as int);
        let rest = stripped_acts(entries, i + 1, dest, prefix);
        if rel.len() == 0 {
            rest
        } else {
            seq![entry_act(entries[i], dest, rel)] + rest
        }
    }
}

proof fn lemma_plan_from_flatten(
    entries: Seq<(Seq<char>, Seq<u8>, Option<u32>)>,
    i: int,
    dest: Seq<Seq<char>>,
    prefix: Seq<Seq<char>>,
)
    requires
        forall|j: int|
            0 <= j < entries.len() ==> prefix.is_prefix_of(
                sanitize_spec(#[trigger] entries[j].0),
            ),
    ensures
        plan_from(entries, i, dest, prefix, true) == Ok::<Seq<ActModel>, crate::error::Error>(
            stripped_acts(entries, i, dest, prefix),
        ),
    decreases entries.len() - i,
{
    if i < 0 || i >= entries.len() {
    } else {
        lemma_plan_from_flatten(entries, i + 1, dest, prefix);
        let sanitized = sanitize_spec(entries[i].0);
        assert(prefix.is_prefix_of(sanitized));
        if sanitized.len() == 0 {
            assert(prefix.len() == 0);
            assert(sanitized.skip(0) =~= sanitized);
        } else {
            let rel = sanitized.skip(prefix.len() as int);
            if rel.len() == 0 {
            } else {
            }
        }
    }
}

/// Flatten semantics: when every entry of an archive shares the first
/// entry's sanitized name as a prefix, a flattening unpack succeeds, and
/// its actions are exactly [`stripped_acts`] — each entry placed at the
/// destination plus its sanitized name with the shared top-level prefix
/// removed.
pub proof fn lemma_flatten_strips_prefix(
    entries: Seq<(Seq<char>, Seq<u8>, Option<u32>)>,
    dest: Seq<Seq<char>>,
)
    requires
        entries.len() > 0,
        forall|j: int|
            0 <= j < entries.len() ==> sanitize_spec(entries[0].0).is_prefix_of(
                sanitize_spec(#[trigger] entries[j].0),
            ),
    ensures
        unzip_plan(entries, dest, true) == Ok::<Seq<ActModel>, crate::error::Error>(
            stripped_acts(entries, 0, dest, sanitize_spec(entries[0].0)),
        ),
{
    lemma_plan_from_flatten(entries, 0, dest, sanitize_spec(entries[0].0));
}

} // verus!
