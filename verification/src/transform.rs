//! The archive transformer: every entry of a module archive becomes a
//! planned file write under the deployment root.
//!
//! Three descriptor entries are consumed rather than copied verbatim:
//! the path-mapping descriptor seeds the mapping, the module-identity
//! descriptor becomes a normalized registration file, and the platform
//! manifest is copied only when the destination's manifest is not
//! already authoritative. Every other entry is copied to the path its
//! name maps to.

use vstd::prelude::*;

use crate::mapping::apply_mapping;
use crate::mapping::decorate_map;
use crate::mapping::default_mapping;
use crate::mapping::mapped_path;
use crate::mapping::pairs_view;
use crate::mapping::spec_decorated_mapping;
use crate::mapping::spec_default_mapping;
use crate::mapping::uniq_keys;
use crate::text::byte_lines;
use crate::text::bytes_match_str;
use crate::text::bytes_range;
use crate::text::bytes_start_with;
use crate::text::decode_latin1;
use crate::text::encode_latin1;
use crate::text::kv_of;
use crate::text::line_starts_with;
use crate::text::narrow_bytes;
use crate::text::push_bytes;
use crate::text::split_kv;
use crate::text::split_lines;
use crate::text::str_eq;
use crate::text::trim_bytes;
use crate::text::trimmed;

verus! {

/// One entry of an archive: its internal name and its bytes.
#[derive(Clone, Debug)]
pub struct ArchiveEntry {
    pub name: String,
    pub data: Vec<u8>,
}

/// The mathematical shape of an archive entry.
#[verifier::ext_equal]
pub struct EntryView {
    pub name: Seq<char>,
    pub data: Seq<u8>,
}

impl View for ArchiveEntry {
    type V = EntryView;

    open spec fn view(&self) -> EntryView {
        EntryView { name: self.name@, data: self.data@ }
    }
}

/// One planned write: a path under the deployment root (with a leading
/// slash) and the bytes to put there.
#[derive(Clone, Debug, PartialEq, Eq)]
pub struct FileWrite {
    pub path: String,
    pub data: Vec<u8>,
}

/// The mathematical shape of a planned write.
#[verifier::ext_equal]
pub struct WriteView {
    pub path: Seq<char>,
    pub data: Seq<u8>,
}

impl View for FileWrite {
    type V = WriteView;

    open spec fn view(&self) -> WriteView {
        WriteView { path: self.path@, data: self.data@ }
    }
}

/// The views of a sequence of entries.
pub open spec fn entry_views(s: Seq<ArchiveEntry>) -> Seq<EntryView> {
    s.map_values(|e: ArchiveEntry| e@)
}

/// The views of a sequence of planned writes.
pub open spec fn write_views(s: Seq<FileWrite>) -> Seq<WriteView> {
    s.map_values(|w: FileWrite| w@)
}

/// The entry names never copied verbatim: each is consumed or merged
/// under special rules.
pub open spec fn is_excluded(name: Seq<char>) -> bool {
    name == "file-mapping.properties"@ || name == "module.properties"@ || name
        == "META-INF/MANIFEST.MF"@
}

/// Whether an entry name is one of the consumed descriptors.
pub fn excluded(name: &str) -> (r: bool)
    ensures
        r == is_excluded(name@),
{
    str_eq(name, "file-mapping.properties") || str_eq(name, "module.properties") || str_eq(
        name,
        "META-INF/MANIFEST.MF",
    )
}

/// The first entry carrying the given name, if any.
pub open spec fn find_entry(entries: Seq<EntryView>, name: Seq<char>) -> Option<EntryView>
    decreases entries.len(),
{
    if entries.len() == 0 {
        None
    } else if entries[0].name == name {
        Some(entries[0])
    } else {
        find_entry(entries.drop_first(), name)
    }
}

/// The index of the first entry carrying the given name.
fn find_entry_idx(entries: &Vec<ArchiveEntry>, name: &str) -> (r: Option<usize>)
    ensures
        match r {
            Some(i) => i < entries@.len() && find_entry(entry_views(entries@), name@) == Some(
                entries@[i as int]@,
            ),
            None => find_entry(entry_views(entries@), name@) is None,
        },
{
    let ghost evs = entry_views(entries@);
    let mut i: usize = 0;
    proof {
        assert(evs.skip(0) =~= evs);
    }
    while i < entries.len()
        invariant
            i <= entries@.len(),
            evs == entry_views(entries@),
            evs.len() == entries@.len(),
            find_entry(evs, name@) == find_entry(evs.skip(i as int), name@),
        decreases entries@.len() - i,
    {
        proof {
            assert(evs[i as int] == entries@[i as int]@);
            assert(evs.skip(i as int)[0] == evs[i as int]);
        }
        if str_eq(entries[i].name.as_str(), name) {
            return Some(i);
        }
        proof {
            assert(evs.skip(i as int).drop_first() =~= evs.skip(i + 1));
        }
        i = i + 1;
    }
    proof {
        assert(evs.skip(evs.len() as int) =~= Seq::<EntryView>::empty());
    }
    None
}

/// The normalized `key=value` lines of a module descriptor, each key and
/// value trimmed, lines without exactly one `=` skipped.
pub open spec fn descriptor_content(lines: Seq<Seq<u8>>) -> Seq<u8>
    decreases lines.len(),
{
    if lines.len() == 0 {
        Seq::<u8>::empty()
    } else {
        let rest = descriptor_content(lines.drop_last());
        match kv_of(lines.last()) {
            Some(kv) => rest + trim_bytes(kv.0) + seq![61u8] + trim_bytes(kv.1) + seq![10u8],
            None => rest,
        }
    }
}

/// The declared module identity: the trimmed value of the last
/// `module.id` line, if any.
pub open spec fn descriptor_id(lines: Seq<Seq<u8>>) -> Option<Seq<u8>>
    decreases lines.len(),
{
    if lines.len() == 0 {
        None
    } else {
        match kv_of(lines.last()) {
            Some(kv) => {
                if decode_latin1(trim_bytes(kv.0)) == "module.id"@ {
                    Some(trim_bytes(kv.1))
                } else {
                    descriptor_id(lines.drop_last())
                }
            },
            None => descriptor_id(lines.drop_last()),
        }
    }
}

/// What a module descriptor's bytes yield: the registration path derived
/// from the declared `module.id` and the normalized content with the
/// installed-state trailer; nothing without a `module.id` line.
pub open spec fn spec_module_descriptor(data: Seq<u8>) -> Option<(Seq<char>, Seq<u8>)> {
    let lines = split_lines(data);
    match descriptor_id(lines) {
        Some(idb) => Some(
            (
                "/WEB-INF/classes/alfresco/module/"@ + decode_latin1(idb) + "/module.properties"@,
                descriptor_content(lines) + encode_latin1("module.installState=INSTALLED\n"@),
            ),
        ),
        None => None,
    }
}

/// Reads a module descriptor: the registration path derived from its
/// declared `module.id` beside the normalized content, ending in the
/// installed-state trailer; `None` when no `module.id` line is present.
pub fn module_descriptor(data: &Vec<u8>) -> (r: Option<(String, Vec<u8>)>)
    ensures
        match (r, spec_module_descriptor(data@)) {
            (Some(p), Some(q)) => p.0@ == q.0 && p.1@ == q.1,
            (None, None) => true,
            _ => false,
        },
{
    let lines = byte_lines(data);
    let ghost lviews = lines@.map_values(|l: Vec<u8>| l@);
    let mut content: Vec<u8> = Vec::new();
    let mut id: Option<Vec<u8>> = None;
    let mut i: usize = 0;
    while i < lines.len()
        invariant
            i <= lines@.len(),
            lviews == lines@.map_values(|l: Vec<u8>| l@),
            lviews =~= split_lines(data@),
            content@ =~= descriptor_content(lviews.take(i as int)),
            match id {
                Some(v) => descriptor_id(lviews.take(i as int)) == Some(v@),
                None => descriptor_id(lviews.take(i as int)) is None,
            },
        decreases lines@.len() - i,
    {
        proof {
            assert(lviews[i as int] == lines@[i as int]@);
            assert(lviews.take(i + 1).drop_last() =~= lviews.take(i as int));
            assert(lviews.take(i + 1).last() == lviews[i as int]);
        }
        match split_kv(&lines[i]) {
            Some(kv) => {
                let tk = trimmed(&kv.0);
                let tv = trimmed(&kv.1);
                push_bytes(&mut content, &tk);
                content.push(61);
                push_bytes(&mut content, &tv);
                content.push(10);
                proof {
                    assert(content@ =~= descriptor_content(lviews.take(i + 1)));
                }
                if bytes_match_str(&tk, "module.id") {
                    id = Some(tv);
                }
            },
            None => {},
        }
        i = i + 1;
    }
    proof {
        assert(lviews.take(lviews.len() as int) =~= lviews);
    }
    match id {
        Some(v) => {
            let mut path = String::from_str("/WEB-INF/classes/alfresco/module/");
            crate::text::append_decoded(&mut path, &v);
            path.append("/module.properties");
            proof {
                reveal_strlit("module.installState=INSTALLED\n");
            }
            let trailer = narrow_bytes("module.installState=INSTALLED\n");
            push_bytes(&mut content, &trailer);
            Some((path, content))
        },
        None => None,
    }
}

/// Whether the `i`th line of a manifest's bytes begins with the
/// specification-version marker.
pub open spec fn line_has_marker(d: Seq<u8>, i: int) -> bool {
    0 <= i < split_lines(d).len() && bytes_start_with(
        split_lines(d)[i],
        "Specification-Version:"@,
    )
}

/// Whether a manifest's bytes hold a specification-version line.
pub open spec fn manifest_bytes_keep(d: Seq<u8>) -> bool {
    exists|i: int| #[trigger] line_has_marker(d, i)
}

/// Whether a destination manifest is authoritative: it exists and holds
/// a line beginning with the specification-version marker, so an
/// archive's manifest must not replace it.
pub open spec fn manifest_keeps_existing(existing: Option<Seq<u8>>) -> bool {
    existing is Some && manifest_bytes_keep(existing->0)
}

/// Whether a manifest's bytes hold a specification-version line.
pub fn manifest_has_marker(data: &Vec<u8>) -> (r: bool)
    ensures
        r == manifest_keeps_existing(Some(data@)),
{
    let lines = byte_lines(data);
    let ghost lviews = lines@.map_values(|l: Vec<u8>| l@);
    let mut i: usize = 0;
    while i < lines.len()
        invariant
            i <= lines@.len(),
            lviews == lines@.map_values(|l: Vec<u8>| l@),
            lviews =~= split_lines(data@),
            forall|j: int| 0 <= j < i ==> !(#[trigger] line_has_marker(data@, j)),
        decreases lines@.len() - i,
    {
        proof {
            assert(lviews[i as int] == lines@[i as int]@);
        }
        if line_starts_with(&lines[i], "Specification-Version:") {
            proof {
                assert(line_has_marker(data@, i as int));
                assert(manifest_bytes_keep(data@));
            }
            return true;
        }
        i = i + 1;
    }
    false
}

/// The planned writes for an archive's ordinary entries: each entry not
/// consumed as a descriptor goes, in order, to the path its slash-prefixed
/// name maps to.
pub open spec fn entry_writes(
    m: Seq<(Seq<char>, Seq<char>)>,
    entries: Seq<EntryView>,
) -> Seq<WriteView>
    decreases entries.len(),
{
    if entries.len() == 0 {
        Seq::<WriteView>::empty()
    } else {
        let head = if is_excluded(entries[0].name) {
            Seq::<WriteView>::empty()
        } else {
            seq![
                WriteView {
                    path: mapped_path(m, seq!['/'] + entries[0].name),
                    data: entries[0].data,
                },
            ]
        };
        head + entry_writes(m, entries.drop_first())
    }
}

/// The mapping one archive's entries yield: decorated from its mapping
/// descriptor when one is present, the built-in table otherwise.
pub open spec fn spec_transform_mapping(entries: Seq<EntryView>) -> Seq<(Seq<char>, Seq<char>)> {
    match find_entry(entries, "file-mapping.properties"@) {
        Some(e) => spec_decorated_mapping(e.data),
        None => spec_default_mapping(),
    }
}

/// The manifest write an archive yields: its manifest entry copied to
/// the fixed manifest path, unless the destination manifest is
/// authoritative or the archive has no manifest entry.
pub open spec fn manifest_writes(
    entries: Seq<EntryView>,
    existing_manifest: Option<Seq<u8>>,
) -> Seq<WriteView> {
    match find_entry(entries, "META-INF/MANIFEST.MF"@) {
        Some(e) => {
            if manifest_keeps_existing(existing_manifest) {
                Seq::<WriteView>::empty()
            } else {
                seq![WriteView { path: "/META-INF/MANIFEST.MF"@, data: e.data }]
            }
        },
        None => Seq::<WriteView>::empty(),
    }
}

/// The module-registration write an archive yields, if its module
/// descriptor declares an identity.
pub open spec fn descriptor_writes(entries: Seq<EntryView>) -> Seq<WriteView> {
    match find_entry(entries, "module.properties"@) {
        Some(e) => match spec_module_descriptor(e.data) {
            Some(pc) => seq![WriteView { path: pc.0, data: pc.1 }],
            None => Seq::<WriteView>::empty(),
        },
        None => Seq::<WriteView>::empty(),
    }
}

/// The full transform plan for one archive: the module registration
/// first, then the conditional manifest copy, then every ordinary entry
/// in archive order.
pub open spec fn spec_transform(
    entries: Seq<EntryView>,
    existing_manifest: Option<Seq<u8>>,
) -> Seq<WriteView> {
    descriptor_writes(entries) + manifest_writes(entries, existing_manifest) + entry_writes(
        spec_transform_mapping(entries),
        entries,
    )
}

/// Law: when the destination manifest already holds a line beginning
/// with the specification marker, the transform plans no write over it —
/// the existing manifest is authoritative, whatever the archive's
/// manifest holds.
pub proof fn lemma_existing_manifest_kept(entries: Seq<EntryView>, existing: Seq<u8>)
    requires
        manifest_keeps_existing(Some(existing)),
    ensures
        manifest_writes(entries, Some(existing)) =~= Seq::<WriteView>::empty(),
{
}

/// Plans the transform of one archive, given its entries and whatever
/// manifest already sits at the destination.
pub fn transform_entries(entries: &Vec<ArchiveEntry>, existing_manifest: &Option<Vec<u8>>) -> (r:
    Vec<FileWrite>)
    ensures
        write_views(r@) =~= spec_transform(
            entry_views(entries@),
            crate::text::option_bytes_view(existing_manifest),
        ),
{
    let ghost evs = entry_views(entries@);
    let ghost em: Option<Seq<u8>> = crate::text::option_bytes_view(existing_manifest);
    let mut plan: Vec<FileWrite> = Vec::new();

    let mapping: Vec<(String, String)> = match find_entry_idx(entries, "file-mapping.properties") {
        Some(i) => decorate_map(&entries[i].data),
        None => default_mapping(),
    };
    proof {
        assert(pairs_view(mapping@) =~= spec_transform_mapping(evs));
        assert(uniq_keys(pairs_view(mapping@)));
    }

    match find_entry_idx(entries, "module.properties") {
        Some(i) => {
            match module_descriptor(&entries[i].data) {
                Some(pc) => {
                    plan.push(FileWrite { path: pc.0, data: pc.1 });
                },
                None => {},
            }
        },
        None => {},
    }
    proof {
        assert(write_views(plan@) =~= descriptor_writes(evs));
    }

    match find_entry_idx(entries, "META-INF/MANIFEST.MF") {
        Some(i) => {
            let keep = match existing_manifest {
                Some(d) => manifest_has_marker(d),
                None => false,
            };
            if !keep {
                let data = bytes_range(&entries[i].data, 0, entries[i].data.len());
                proof {
                    assert(data@ =~= entries@[i as int].data@);
                }
                plan.push(
                    FileWrite { path: String::from_str("/META-INF/MANIFEST.MF"), data },
                );
            }
        },
        None => {},
    }
    proof {
        assert(write_views(plan@) =~= descriptor_writes(evs) + manifest_writes(evs, em));
    }

    proof {
        assert(evs.skip(0) =~= evs);
    }
    let mut i: usize = 0;
    while i < entries.len()
        invariant
            i <= entries@.len(),
            evs == entry_views(entries@),
            evs.len() == entries@.len(),
            uniq_keys(pairs_view(mapping@)),
            write_views(plan@) + entry_writes(pairs_view(mapping@), evs.skip(i as int))
                =~= descriptor_writes(evs) + manifest_writes(evs, em) + entry_writes(
                pairs_view(mapping@),
                evs,
            ),
        decreases entries@.len() - i,
    {
        proof {
            assert(evs[i as int] == entries@[i as int]@);
            assert(evs.skip(i as int)[0] == evs[i as int]);
            assert(evs.skip(i as int).drop_first() =~= evs.skip(i + 1));
        }
        if !excluded(entries[i].name.as_str()) {
            proof {
                reveal_strlit("/");
                assert("/"@ =~= seq!['/']);
            }
            let slashed = String::from_str("/").concat(entries[i].name.as_str());
            let path = apply_mapping(&mapping, &slashed);
            let data = bytes_range(&entries[i].data, 0, entries[i].data.len());
            proof {
                assert(data@ =~= entries@[i as int].data@);
                assert(slashed@ =~= seq!['/'] + evs[i as int].name);
            }
            let ghost old_plan = plan@;
            plan.push(FileWrite { path, data });
            proof {
                assert(write_views(plan@) =~= write_views(old_plan) + seq![
                    WriteView {
                        path: mapped_path(pairs_view(mapping@), seq!['/'] + evs[i as int].name),
                        data: evs[i as int].data,
                    },
                ]);
            }
        }
        i = i + 1;
    }
    proof {
        assert(evs.skip(evs.len() as int) =~= Seq::<EntryView>::empty());
        assert(write_views(plan@) + Seq::<WriteView>::empty() =~= write_views(plan@));
    }
    plan
}

/// Why an archive cannot be transformed.
#[derive(Clone, Copy, Debug, PartialEq, Eq, Structural)]
pub enum ArchiveError {
    /// The bytes do not open as an archive, or an entry cannot be read.
    Unreadable,
}

/// Names the entry list `zip::read::ZipArchive` yields for an archive's
/// bytes — each entry's name beside its bytes, in index order — and
/// `None` where the bytes do not open as an archive. It depends on the
/// bytes alone.
pub uninterp spec fn zip_entries(b: Seq<u8>) -> Option<Seq<(Seq<char>, Seq<u8>)>>;

/// Relies on `zip::read::ZipArchive` over in-memory bytes: opens the
/// archive and reads every entry's name and bytes, in index order.
#[verifier::external_body]
fn read_zip_entries(bytes: &Vec<u8>) -> (r: Option<Vec<ArchiveEntry>>)
    ensures
        match r {
            Some(es) => zip_entries(bytes@) == Some(
                es@.map_values(|e: ArchiveEntry| (e.name@, e.data@)),
            ),
            None => zip_entries(bytes@) is None,
        },
{
    let mut archive = zip::read::ZipArchive::new(std::io::Cursor::new(bytes.clone())).ok()?;
    let mut out = Vec::new();
    for i in 0..archive.len() {
        let mut f = archive.by_index(i).ok()?;
        let name = f.name().to_string();
        let mut data = Vec::new();
        std::io::Read::read_to_end(&mut f, &mut data).ok()?;
        out.push(ArchiveEntry { name, data });
    }
    Some(out)
}

/// The entry views an archive's named entry list stands for.
pub open spec fn entries_of_pairs(p: Seq<(Seq<char>, Seq<u8>)>) -> Seq<EntryView> {
    p.map_values(|q: (Seq<char>, Seq<u8>)| EntryView { name: q.0, data: q.1 })
}

/// Transforms one archive: opens its bytes, reads every entry and plans
/// the writes. Fails exactly where the bytes do not open as an archive —
/// the one failure that aborts a whole run.
pub fn transform_archive(bytes: &Vec<u8>, existing_manifest: &Option<Vec<u8>>) -> (r: Result<
    Vec<FileWrite>,
    ArchiveError,
>)
    ensures
        match r {
            Ok(plan) => zip_entries(bytes@) is Some && write_views(plan@) == spec_transform(
                entries_of_pairs(zip_entries(bytes@)->0),
                crate::text::option_bytes_view(existing_manifest),
            ),
            Err(e) => zip_entries(bytes@) is None && e == ArchiveError::Unreadable,
        },
{
    match read_zip_entries(bytes) {
        Some(entries) => {
            let plan = transform_entries(&entries, existing_manifest);
            proof {
                assert(entry_views(entries@) =~= entries_of_pairs(zip_entries(bytes@)->0));
            }
            Ok(plan)
        },
        None => Err(ArchiveError::Unreadable),
    }
}

} // verus!
