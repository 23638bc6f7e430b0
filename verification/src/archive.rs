//! The archive assembler: serializes discovered entries into the
//! package's on-disk layout, one directory per asset keyed by its
//! identifier, inside a gzip-compressed tape archive built in memory.
//!
//! A member of the archive is modelled as a triple of its name, its
//! declared size and its content bytes.  The `pathname` member's
//! declared size is the character count of the logical path, not its
//! byte count: the package format has always sized this member so, and
//! compatibility requires reproducing it even for non-ASCII paths.

use vstd::prelude::*;

verus! {

use std::io::Write;
use vstd::string::StrSliceExecFns;
use vstd::string::StringExecFns;
use vstd::utf8::encode_utf8;
use crate::scan::UnityMeta;

/// Why assembling an archive failed: the tape or compression stream
/// reported a write failure.
#[derive(Debug)]
pub enum ArchiveError {
    Io,
}

#[verifier::external_type_specification]
#[verifier::external_body]
pub struct ExIoError(std::io::Error);

/// A tape archive under construction in memory.  The builder type of the
/// tar crate carries a trait bound on its writer that Verus refuses to
/// declare, so it is held opaquely here; all that is known of it is
/// `tar_members`.
#[verifier::external_body]
pub struct ArchiveBuilder {
    inner: tar::Builder<Vec<u8>>,
}

/// The members so far appended to a tape-archive builder over an
/// in-memory buffer, each as (name, declared size, content bytes).
pub uninterp spec fn tar_members(b: ArchiveBuilder) -> Seq<(Seq<char>, nat, Seq<u8>)>;

/// The byte encoding of a finished tape archive holding the given
/// members, in order.
pub uninterp spec fn tar_encoding(members: Seq<(Seq<char>, nat, Seq<u8>)>) -> Seq<u8>;

/// The gzip compression of the given bytes, with the zero timestamp and
/// fixed platform byte that the compressor writes by default.
pub uninterp spec fn gzip_of(bytes: Seq<u8>) -> Seq<u8>;

/// Relies on `tar::Builder::new` over an empty buffer: a builder holding
/// no members yet.
#[verifier::external_body]
fn tar_builder_new() -> (b: ArchiveBuilder)
    ensures
        tar_members(b) == Seq::<(Seq<char>, nat, Seq<u8>)>::empty(),
{
    ArchiveBuilder { inner: tar::Builder::new(Vec::new()) }
}

/// Relies on `tar::Header::new_gnu`, `Header::set_size`,
/// `Header::set_cksum` and `tar::Builder::append_data`: on success, one
/// member with the given name, declared size and content bytes has been
/// appended after the members already present, under a fresh header
/// whose metadata fields are zero.  The name must be one the archive
/// stores unchanged (a name over 100 bytes still reaches readers whole,
/// through the long-name extension).
#[verifier::external_body]
fn tar_append_member(b: &mut ArchiveBuilder, name: &str, size: u64, data: &[u8]) -> (r:
    Result<(), std::io::Error>)
    requires
        spec_plain_tar_name(name@),
    ensures
        r is Ok ==> tar_members(*final(b)) == tar_members(*old(b)).push(
            (name@, size as nat, data@),
        ),
{
    let mut header = tar::Header::new_gnu();
    header.set_size(size);
    header.set_cksum();
    b.inner.append_data(&mut header, name, data)
}

/// Relies on `tar::Builder::into_inner`: finishes the archive with the
/// two terminating zero blocks and hands back the buffer; the bytes are
/// a function of the members alone.
#[verifier::external_body]
fn tar_finish(b: ArchiveBuilder) -> (r: Result<Vec<u8>, std::io::Error>)
    ensures
        r matches Ok(v) ==> v@ == tar_encoding(tar_members(b)),
{
    b.inner.into_inner()
}

/// Relies on `flate2::write::GzEncoder` at the default compression
/// level, driven by `write_all` and `finish`: the output is the gzip
/// compression of the input bytes alone (the stream header carries a
/// zero timestamp and a fixed platform byte).
#[verifier::external_body]
fn gzip_bytes(data: &Vec<u8>) -> (r: Result<Vec<u8>, std::io::Error>)
    ensures
        r matches Ok(v) ==> v@ == gzip_of(data@),
{
    let mut enc = flate2::write::GzEncoder::new(Vec::new(), flate2::Compression::default());
    enc.write_all(data)?;
    enc.finish()
}

/// A name that the tape archive stores for a member unchanged: not
/// empty, not rooted, free of NUL bytes, with no empty, `.` or `..`
/// component and no trailing separator.
pub open spec fn spec_plain_tar_name(s: Seq<char>) -> bool {
    &&& s.len() > 0
    &&& s[0] != '/'
    &&& s[s.len() - 1] != '/'
    &&& (forall|i: int| 0 <= i < s.len() ==> #[trigger] s[i] != '\u{0}')
    &&& (forall|i: int|
        0 <= i && i + 1 < s.len() ==> !(#[trigger] s[i] == '/' && s[i + 1] == '/'))
    &&& (forall|i: int|
        0 <= i < s.len() && (i == 0 || s[i - 1] == '/') && (i + 1 == s.len() || s[i + 1] == '/')
            ==> #[trigger] s[i] != '.')
    &&& (forall|i: int|
        0 <= i && i + 1 < s.len() && (i == 0 || s[i - 1] == '/') && (i + 2 == s.len() || s[i + 2]
            == '/') ==> !(#[trigger] s[i] == '.' && s[i + 1] == '.'))
}

/// An identifier fit to key one directory of the archive: non-empty, a
/// single path component (no separator, no NUL), and not a dot
/// component.
pub open spec fn spec_valid_identifier(g: Seq<char>) -> bool {
    &&& g.len() > 0
    &&& (forall|i: int| 0 <= i < g.len() ==> #[trigger] g[i] != '/' && g[i] != '\u{0}')
    &&& !(g.len() == 1 && g[0] == '.')
    &&& !(g.len() == 2 && g[0] == '.' && g[1] == '.')
}

/// A valid identifier followed by one fixed `/`-rooted member suffix is
/// stored by the tape archive unchanged.
proof fn lemma_member_name_plain(g: Seq<char>, suffix: Seq<char>)
    requires
        spec_valid_identifier(g),
        suffix.len() >= 2,
        suffix[0] == '/',
        suffix[1] != '.',
        forall|i: int|
            1 <= i < suffix.len() ==> #[trigger] suffix[i] != '/' && suffix[i] != '\u{0}',
    ensures
        spec_plain_tar_name(g + suffix),
{
    let s = g + suffix;
    let gl = g.len() as int;
    assert(s[0] == g[0]);
    assert(s[s.len() - 1] == suffix[suffix.len() - 1]);
    assert forall|i: int| 0 <= i < s.len() implies #[trigger] s[i] != '\u{0}' by {
        if i < gl {
            assert(s[i] == g[i]);
        } else if i == gl {
            assert(s[i] == suffix[0]);
        } else {
            assert(s[i] == suffix[i - gl]);
        }
    }
    assert forall|i: int| 0 <= i && i + 1 < s.len() implies !(#[trigger] s[i] == '/' && s[i + 1]
        == '/') by {
        if i + 1 < gl {
            assert(s[i] == g[i] && s[i + 1] == g[i + 1]);
        } else if i + 1 == gl {
            assert(s[i] == g[i]);
        } else if i == gl {
            assert(s[i + 1] == suffix[1]);
        } else {
            assert(s[i] == suffix[i - gl]);
        }
    }
    assert forall|i: int|
        0 <= i < s.len() && (i == 0 || s[i - 1] == '/') && (i + 1 == s.len() || s[i + 1]
            == '/') implies #[trigger] s[i] != '.' by {
        if i == 0 {
            if gl == 1 {
                assert(s[1] == suffix[0]);
                assert(s[i] == g[0]);
            } else {
                assert(s[1] == g[1]);
            }
        } else if i < gl {
            assert(s[i - 1] == g[i - 1]);
        } else if i == gl {
            assert(s[i] == suffix[0]);
        } else if i == gl + 1 {
            assert(s[i] == suffix[1]);
        } else {
            assert(s[i - 1] == suffix[i - 1 - gl]);
        }
    }
    assert forall|i: int|
        0 <= i && i + 1 < s.len() && (i == 0 || s[i - 1] == '/') && (i + 2 == s.len() || s[i + 2]
            == '/') implies !(#[trigger] s[i] == '.' && s[i + 1] == '.') by {
        if i == 0 {
            if gl == 1 {
                assert(s[1] == suffix[0]);
            } else if gl == 2 {
                assert(s[0] == g[0] && s[1] == g[1]);
                assert(s[2] == suffix[0]);
            } else {
                assert(s[1] == g[1]);
                assert(s[2] == g[2]);
            }
        } else if i < gl {
            assert(s[i - 1] == g[i - 1]);
        } else if i == gl {
            assert(s[i] == suffix[0]);
        } else if i == gl + 1 {
            assert(s[i] == suffix[1]);
        } else {
            assert(s[i - 1] == suffix[i - 1 - gl]);
        }
    }
}

/// Decides `spec_valid_identifier`, so that a caller can test an
/// identifier before building an archive around it.
pub fn is_valid_identifier(g: &str) -> (r: bool)
    ensures
        r == spec_valid_identifier(g@),
{
    let n: usize = g.unicode_len();
    if n == 0 {
        return false;
    }
    if n == 1 && g.get_char(0) == '.' {
        return false;
    }
    if n == 2 && g.get_char(0) == '.' && g.get_char(1) == '.' {
        return false;
    }
    let mut i: usize = 0;
    while i < n
        invariant
            i <= n,
            n == g@.len(),
            forall|j: int| 0 <= j < i ==> #[trigger] g@[j] != '/' && g@[j] != '\u{0}',
        decreases n - i,
    {
        let c = g.get_char(i);
        if c == '/' || c == '\u{0}' {
            return false;
        }
        i = i + 1;
    }
    true
}

/// The entry's `pathname` member: the logical path's bytes, declared
/// with its character count.
pub open spec fn spec_pathname_member(m: UnityMeta) -> (Seq<char>, nat, Seq<u8>) {
    (m.guid@ + "/pathname"@, m.path@.len(), encode_utf8(m.path@))
}

/// The entry's `asset.meta` member: a copy of the descriptor's bytes.
pub open spec fn spec_meta_member(m: UnityMeta, meta: Seq<u8>) -> (Seq<char>, nat, Seq<u8>) {
    (m.guid@ + "/asset.meta"@, meta.len(), meta)
}

/// The entry's `asset` member: a copy of the asset payload's bytes.
pub open spec fn spec_asset_member(m: UnityMeta, asset: Seq<u8>) -> (Seq<char>, nat, Seq<u8>) {
    (m.guid@ + "/asset"@, asset.len(), asset)
}

/// The members one entry contributes, in order: `pathname`, then
/// `asset.meta`, then `asset` exactly when a payload is present.
pub open spec fn spec_entry_members(m: UnityMeta, meta: Seq<u8>, asset: Option<Seq<u8>>) -> Seq<
    (Seq<char>, nat, Seq<u8>),
> {
    match asset {
        Some(a) => seq![
            spec_pathname_member(m),
            spec_meta_member(m, meta),
            spec_asset_member(m, a),
        ],
        None => seq![spec_pathname_member(m), spec_meta_member(m, meta)],
    }
}

/// The content read for one entry: the descriptor's bytes and, when the
/// entry has an asset file, its bytes.
pub struct EntryContent {
    pub meta_content: Vec<u8>,
    pub asset_content: Option<Vec<u8>>,
}

pub open spec fn spec_opt_bytes(o: Option<Vec<u8>>) -> Option<Seq<u8>> {
    match o {
        Some(v) => Some(v@),
        None => None,
    }
}

pub open spec fn spec_opt_ref_bytes(o: Option<&Vec<u8>>) -> Option<Seq<u8>> {
    match o {
        Some(v) => Some(v@),
        None => None,
    }
}

/// The members of the whole archive: each entry's members, in entry
/// order.
pub open spec fn spec_archive_members(ms: Seq<UnityMeta>, cs: Seq<EntryContent>) -> Seq<
    (Seq<char>, nat, Seq<u8>),
>
    recommends
        ms.len() == cs.len(),
    decreases ms.len(),
{
    if ms.len() == 0 {
        Seq::empty()
    } else {
        spec_archive_members(ms.drop_last(), cs.drop_last()) + spec_entry_members(
            ms.last(),
            cs.last().meta_content@,
            spec_opt_bytes(cs.last().asset_content),
        )
    }
}

/// How many entries carry an asset payload.
pub open spec fn spec_asset_count(cs: Seq<EntryContent>) -> nat
    decreases cs.len(),
{
    if cs.len() == 0 {
        0
    } else {
        spec_asset_count(cs.drop_last()) + (if cs.last().asset_content is Some {
            1nat
        } else {
            0
        })
    }
}

proof fn lemma_contains_left<T>(a: Seq<T>, b: Seq<T>, x: T)
    requires
        a.contains(x),
    ensures
        (a + b).contains(x),
{
    let i: int = choose|i: int| 0 <= i < a.len() && a[i] == x;
    assert((a + b)[i] == x);
}

/// The archive of N entries holds exactly two members for every entry
/// plus one more for every asset payload; for each entry its `pathname`
/// and `asset.meta` members are among them, and its `asset` member is
/// whenever the entry carries a payload.
pub proof fn lemma_archive_shape(ms: Seq<UnityMeta>, cs: Seq<EntryContent>)
    requires
        ms.len() == cs.len(),
    ensures
        spec_archive_members(ms, cs).len() == 2 * ms.len() + spec_asset_count(cs),
        forall|i: int|
            0 <= i < ms.len() ==> spec_archive_members(ms, cs).contains(
                #[trigger] spec_pathname_member(ms[i]),
            ),
        forall|i: int|
            0 <= i < ms.len() ==> spec_archive_members(ms, cs).contains(
                #[trigger] spec_meta_member(ms[i], cs[i].meta_content@),
            ),
        forall|i: int|
            0 <= i < ms.len() && cs[i].asset_content is Some ==> spec_archive_members(
                ms,
                cs,
            ).contains(#[trigger] spec_asset_member(ms[i], (cs[i].asset_content->0)@)),
    decreases ms.len(),
{
    if ms.len() == 0 {
    } else {
        let msp = ms.drop_last();
        let csp = cs.drop_last();
        lemma_archive_shape(msp, csp);
        let a = spec_archive_members(msp, csp);
        let block = spec_entry_members(
            ms.last(),
            cs.last().meta_content@,
            spec_opt_bytes(cs.last().asset_content),
        );
        let whole = spec_archive_members(ms, cs);
        assert(whole == a + block);
        let n: int = ms.len() - 1;
        assert forall|i: int| 0 <= i < ms.len() implies whole.contains(
            #[trigger] spec_pathname_member(ms[i]),
        ) by {
            if i < n {
                assert(msp[i] == ms[i]);
                lemma_contains_left(a, block, spec_pathname_member(msp[i]));
            } else {
                assert(whole[a.len() as int] == spec_pathname_member(ms[i]));
            }
        }
        assert forall|i: int| 0 <= i < ms.len() implies whole.contains(
            #[trigger] spec_meta_member(ms[i], cs[i].meta_content@),
        ) by {
            if i < n {
                assert(msp[i] == ms[i]);
                assert(csp[i] == cs[i]);
                lemma_contains_left(a, block, spec_meta_member(msp[i], csp[i].meta_content@));
            } else {
                assert(whole[a.len() as int + 1] == spec_meta_member(ms[i], cs[i].meta_content@));
            }
        }
        assert forall|i: int| 0 <= i < ms.len() && cs[i].asset_content is Some implies whole
            .contains(#[trigger] spec_asset_member(ms[i], (cs[i].asset_content->0)@)) by {
            if i < n {
                assert(msp[i] == ms[i]);
                assert(csp[i] == cs[i]);
                lemma_contains_left(
                    a,
                    block,
                    spec_asset_member(msp[i], (csp[i].asset_content->0)@),
                );
            } else {
                assert(whole[a.len() as int + 2] == spec_asset_member(ms[i], (cs[i].asset_content->0)@));
            }
        }
    }
}

impl UnityMeta {
    /// Appends this entry's members to the archive under way: the
    /// `pathname` member sized by the logical path's character count,
    /// the descriptor's bytes as `asset.meta`, and the payload's bytes
    /// as `asset` when one is present.
    pub fn add_to_builder(
        &self,
        builder: &mut ArchiveBuilder,
        meta_content: &Vec<u8>,
        asset_content: Option<&Vec<u8>>,
    ) -> (r: Result<(), ArchiveError>)
        requires
            spec_valid_identifier(self.guid@),
            self.asset_file is Some <==> asset_content is Some,
        ensures
            r is Ok ==> tar_members(*final(builder)) == tar_members(*old(builder))
                + spec_entry_members(*self, meta_content@, spec_opt_ref_bytes(asset_content)),
    {
        proof {
            reveal_strlit("/pathname");
            reveal_strlit("/asset.meta");
            reveal_strlit("/asset");
            lemma_member_name_plain(self.guid@, "/pathname"@);
            lemma_member_name_plain(self.guid@, "/asset.meta"@);
            lemma_member_name_plain(self.guid@, "/asset"@);
        }
        let pathname_name = self.guid.clone().concat("/pathname");
        let path_bytes = self.path.as_str().as_bytes_vec();
        let char_count: usize = self.path.as_str().unicode_len();
        match tar_append_member(
            builder,
            pathname_name.as_str(),
            char_count as u64,
            path_bytes.as_slice(),
        ) {
            Ok(_) => (),
            Err(_) => {
                return Err(ArchiveError::Io);
            },
        }

        let meta_name = self.guid.clone().concat("/asset.meta");
        match tar_append_member(
            builder,
            meta_name.as_str(),
            meta_content.len() as u64,
            meta_content.as_slice(),
        ) {
            Ok(_) => (),
            Err(_) => {
                return Err(ArchiveError::Io);
            },
        }

        match asset_content {
            Some(asset) => {
                let asset_name = self.guid.clone().concat("/asset");
                match tar_append_member(
                    builder,
                    asset_name.as_str(),
                    asset.len() as u64,
                    asset.as_slice(),
                ) {
                    Ok(_) => (),
                    Err(_) => {
                        return Err(ArchiveError::Io);
                    },
                }
                proof {
                    assert(tar_members(*builder) =~= tar_members(*old(builder))
                        + spec_entry_members(
                        *self,
                        meta_content@,
                        spec_opt_ref_bytes(asset_content),
                    ));
                }
            },
            None => {
                proof {
                    assert(tar_members(*builder) =~= tar_members(*old(builder))
                        + spec_entry_members(
                        *self,
                        meta_content@,
                        spec_opt_ref_bytes(asset_content),
                    ));
                }
            },
        }
        Ok(())
    }
}

/// Serializes the entries, in the order given, into a finished
/// compressed tape archive and returns its bytes.
pub fn assemble(entries: &Vec<UnityMeta>, contents: &Vec<EntryContent>) -> (r: Result<
    Vec<u8>,
    ArchiveError,
>)
    requires
        entries@.len() == contents@.len(),
        forall|i: int| 0 <= i < entries@.len() ==> spec_valid_identifier(#[trigger] entries@[i].guid@),
        forall|i: int|
            0 <= i < entries@.len() ==> (entries@[i].asset_file is Some
                <==> contents@[i].asset_content is Some),
    ensures
        r matches Ok(v) ==> v@ == gzip_of(
            tar_encoding(spec_archive_members(entries@, contents@)),
        ),
{
    let mut builder = tar_builder_new();
    let mut i: usize = 0;
    while i < entries.len()
        invariant
            i <= entries@.len(),
            entries@.len() == contents@.len(),
            forall|k: int|
                0 <= k < entries@.len() ==> spec_valid_identifier(#[trigger] entries@[k].guid@),
            forall|k: int|
                0 <= k < entries@.len() ==> (entries@[k].asset_file is Some
                    <==> contents@[k].asset_content is Some),
            tar_members(builder) == spec_archive_members(
                entries@.take(i as int),
                contents@.take(i as int),
            ),
        decreases entries@.len() - i,
    {
        let content = &contents[i];
        let asset_ref = content.asset_content.as_ref();
        proof {
            assert(spec_opt_ref_bytes(asset_ref) == spec_opt_bytes(
                contents@[i as int].asset_content,
            ));
        }
        match entries[i].add_to_builder(&mut builder, &content.meta_content, asset_ref) {
            Ok(_) => (),
            Err(e) => {
                return Err(e);
            },
        }
        proof {
            let ms1 = entries@.take(i + 1);
            let cs1 = contents@.take(i + 1);
            assert(ms1.drop_last() =~= entries@.take(i as int));
            assert(cs1.drop_last() =~= contents@.take(i as int));
        }
        i = i + 1;
    }
    proof {
        assert(entries@.take(entries@.len() as int) =~= entries@);
        assert(contents@.take(contents@.len() as int) =~= contents@);
    }
    let tar_bytes = match tar_finish(builder) {
        Ok(v) => v,
        Err(_) => {
            return Err(ArchiveError::Io);
        },
    };
    match gzip_bytes(&tar_bytes) {
        Ok(v) => Ok(v),
        Err(_) => Err(ArchiveError::Io),
    }
}

} // verus!
