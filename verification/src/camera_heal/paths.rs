//! Where the files of a heal stand.

use vstd::prelude::*;

verus! {

/// The name under which the original camera track is kept.
pub const BACKUP_FILE_NAME: &'static str = "camera.original.mp4";

/// The extension of a rescaled track until it takes the original's place.
pub const HEALED_EXTENSION: &'static str = "healed.mp4";

/// One part of a path: the name of a file or a directory, or something else,
/// such as the way up. Names need not be Unicode: they are kept as bytes, in an
/// encoding in which ASCII characters are bytes of their own.
pub struct PathPart {
    pub bytes: Vec<u8>,
    pub is_name: bool,
}

/// A path, part by part.
pub struct TrackPath {
    pub parts: Vec<PathPart>,
}

/// One part of a path.
pub struct PartView {
    pub bytes: Seq<u8>,
    pub is_name: bool,
}

impl View for PathPart {
    type V = PartView;

    open spec fn view(&self) -> PartView {
        PartView { bytes: self.bytes@, is_name: self.is_name }
    }
}

impl View for TrackPath {
    type V = Seq<PartView>;

    open spec fn view(&self) -> Seq<PartView> {
        Seq::new(self.parts@.len(), |i: int| self.parts@[i]@)
    }
}

/// The bytes of an ASCII text.
pub open spec fn ascii(text: Seq<char>) -> Seq<u8> {
    text.map_values(|c: char| c as u8)
}

/// The byte of a dot.
pub const DOT: u8 = 0x2e;

/// Whether the path ends in a name.
pub open spec fn has_file_name(path: Seq<PartView>) -> bool {
    path.len() > 0 && path.last().is_name
}

/// The path with another file name. A path that does not end in a name gets
/// one.
pub open spec fn with_file_name(path: Seq<PartView>, name: Seq<u8>) -> Seq<PartView> {
    let part = PartView { bytes: name, is_name: true };
    if has_file_name(path) {
        path.drop_last().push(part)
    } else {
        path.push(part)
    }
}

/// Where the last dot of a name stands, or -1 if it has none.
pub open spec fn last_dot(name: Seq<u8>) -> int
    decreases name.len(),
{
    if name.len() == 0 {
        -1
    } else if name.last() == DOT {
        name.len() - 1
    } else {
        last_dot(name.drop_last())
    }
}

/// A name without its extension. A dot at the beginning does not start one.
pub open spec fn file_stem(name: Seq<u8>) -> Seq<u8> {
    if last_dot(name) > 0 {
        name.take(last_dot(name))
    } else {
        name
    }
}

/// The path with another extension. A path that does not end in a name stays
/// as it is.
pub open spec fn with_extension(path: Seq<PartView>, extension: Seq<u8>) -> Seq<PartView> {
    if has_file_name(path) {
        path.drop_last().push(
            PartView { bytes: file_stem(path.last().bytes).push(DOT) + extension, is_name: true },
        )
    } else {
        path
    }
}

/// The first `count` parts of a path.
fn first_parts(path: &TrackPath, count: usize) -> (first: TrackPath)
    requires
        count <= path.parts@.len(),
    ensures
        first@ == path@.take(count as int),
{
    let mut parts: Vec<PathPart> = Vec::new();
    let mut i: usize = 0;
    while i < count
        invariant
            i <= count <= path.parts@.len(),
            parts@.len() == i,
            forall|j: int| 0 <= j < i ==> (#[trigger] parts@[j])@ == path@[j],
        decreases count - i,
    {
        let mut bytes: Vec<u8> = Vec::new();
        bytes.extend_from_slice(path.parts[i].bytes.as_slice());
        assert(bytes@ =~= path.parts@[i as int].bytes@);
        parts.push(PathPart { bytes, is_name: path.parts[i].is_name });
        i = i + 1;
    }
    let first = TrackPath { parts };
    assert(first@ =~= path@.take(count as int));
    first
}

/// The bytes of an ASCII text.
fn ascii_bytes(text: &str) -> (bytes: Vec<u8>)
    ensures
        bytes@ == ascii(text@),
{
    let len: usize = text.unicode_len();
    let mut bytes: Vec<u8> = Vec::new();
    let mut i: usize = 0;
    while i < len
        invariant
            i <= len == text@.len(),
            bytes@ == ascii(text@).take(i as int),
        decreases len - i,
    {
        bytes.push(text.get_char(i) as u8);
        i = i + 1;
        assert(bytes@ =~= ascii(text@).take(i as int));
    }
    assert(ascii(text@).take(i as int) =~= ascii(text@));
    bytes
}

/// How many parts stand before the file name.
fn parent_len(path: &TrackPath) -> (len: usize)
    ensures
        len == if has_file_name(path@) {
            path@.len() - 1
        } else {
            path@.len() as int
        },
{
    let len = path.parts.len();
    if len > 0 && path.parts[len - 1].is_name {
        len - 1
    } else {
        len
    }
}

/// Where the original of a camera track is kept: beside it.
pub fn backup_path_for(camera_path: &TrackPath) -> (backup_path: TrackPath)
    ensures
        backup_path@ == with_file_name(camera_path@, ascii(BACKUP_FILE_NAME@)),
{
    let len = parent_len(camera_path);
    let mut path = first_parts(camera_path, len);
    let ghost parent = path@;
    path.parts.push(PathPart { bytes: ascii_bytes(BACKUP_FILE_NAME), is_name: true });
    assert(path@ =~= parent.push(PartView { bytes: ascii(BACKUP_FILE_NAME@), is_name: true }));
    assert(path@ =~= with_file_name(camera_path@, ascii(BACKUP_FILE_NAME@)));
    path
}

/// A name without its extension.
fn stem_of(name: &Vec<u8>) -> (stem: Vec<u8>)
    ensures
        stem@ == file_stem(name@),
{
    let mut end: usize = name.len();
    assert(name@.take(end as int) =~= name@);
    while end > 0 && name[end - 1] != DOT
        invariant
            end <= name@.len(),
            last_dot(name@) == last_dot(name@.take(end as int)),
        decreases end,
    {
        assert(name@.take(end as int).drop_last() =~= name@.take(end - 1));
        end = end - 1;
    }
    let len: usize = if end > 1 {
        end - 1
    } else {
        name.len()
    };
    let mut stem: Vec<u8> = Vec::new();
    stem.extend_from_slice(&name.as_slice()[0..len]);
    assert(stem@ =~= name@.take(len as int));
    assert(name@.take(name@.len() as int) =~= name@);
    stem
}

/// Where a camera track is rescaled to before it takes the original's place.
pub fn healed_path_for(camera_path: &TrackPath) -> (healed_path: TrackPath)
    ensures
        healed_path@ == with_extension(camera_path@, ascii(HEALED_EXTENSION@)),
{
    let len = parent_len(camera_path);
    let mut path = first_parts(camera_path, len);
    if len < camera_path.parts.len() {
        let ghost parent = path@;
        let mut bytes = stem_of(&camera_path.parts[len].bytes);
        bytes.push(DOT);
        bytes.extend_from_slice(ascii_bytes(HEALED_EXTENSION).as_slice());
        assert(bytes@ =~= file_stem(camera_path@.last().bytes).push(DOT) + ascii(
            HEALED_EXTENSION@,
        ));
        path.parts.push(PathPart { bytes, is_name: true });
        assert(path@ =~= parent.push(PartView { bytes: bytes@, is_name: true }));
    }
    assert(path@ =~= with_extension(camera_path@, ascii(HEALED_EXTENSION@)));
    path
}

/// The last dot of a name is a dot, and none comes after it.
proof fn lemma_last_dot(name: Seq<u8>)
    ensures
        -1 <= last_dot(name) < name.len(),
        last_dot(name) >= 0 ==> name[last_dot(name)] == DOT,
        forall|i: int| last_dot(name) < i < name.len() ==> name[i] != DOT,
    decreases name.len(),
{
    if name.len() > 0 && name.last() != DOT {
        lemma_last_dot(name.drop_last());
        assert forall|i: int| last_dot(name) < i < name.len() implies name[i] != DOT by {
            if i < name.len() - 1 {
                assert(name[i] == name.drop_last()[i]);
            }
        }
    }
}

/// The files of a heal do not get into each other's way: the rescaled track
/// is neither the camera track nor the backup, and the backup is the camera
/// track only if the camera track already bears the backup's name.
pub proof fn law_heal_paths_are_distinct(camera_path: Seq<PartView>)
    requires
        has_file_name(camera_path),
    ensures
        with_extension(camera_path, ascii(HEALED_EXTENSION@)) != camera_path,
        with_extension(camera_path, ascii(HEALED_EXTENSION@)) != with_file_name(
            camera_path,
            ascii(BACKUP_FILE_NAME@),
        ),
        with_file_name(camera_path, ascii(BACKUP_FILE_NAME@)) == camera_path
            <==> camera_path.last().bytes == ascii(BACKUP_FILE_NAME@),
{
    reveal_strlit("camera.original.mp4");
    reveal_strlit("healed.mp4");
    let name = camera_path.last().bytes;
    let stem = file_stem(name);
    let healed = stem.push(DOT) + ascii(HEALED_EXTENSION@);
    let healed_path = with_extension(camera_path, ascii(HEALED_EXTENSION@));
    let backup_path = with_file_name(camera_path, ascii(BACKUP_FILE_NAME@));
    lemma_last_dot(name);
    assert(healed_path.last().bytes == healed);
    assert(backup_path.last().bytes == ascii(BACKUP_FILE_NAME@));
    assert(healed != name) by {
        if healed == name && last_dot(name) > 0 {
            assert(healed[stem.len() as int + 7] == DOT);
        }
    }
    assert(healed != ascii(BACKUP_FILE_NAME@)) by {
        assert(healed[healed.len() - 5] == 0x64);
        assert(ascii(BACKUP_FILE_NAME@)[ascii(BACKUP_FILE_NAME@).len() - 5] == 0x6c);
    }
    if name == ascii(BACKUP_FILE_NAME@) {
        assert(backup_path =~= camera_path);
    }
}

/// The original is kept in the directory of the camera track, as
/// `camera.original.mp4`.
pub proof fn law_backup_stands_beside(camera_path: Seq<PartView>, backup_path: Seq<PartView>)
    requires
        backup_path == with_file_name(camera_path, ascii(BACKUP_FILE_NAME@)),
    ensures
        backup_path.len() == if camera_path.len() > 0 && camera_path.last().is_name {
            camera_path.len()
        } else {
            camera_path.len() + 1
        },
        forall|i: int| 0 <= i < backup_path.len() - 1 ==> #[trigger] backup_path[i] == camera_path[i],
        backup_path.last().is_name,
        backup_path.last().bytes.len() == "camera.original.mp4"@.len(),
        forall|i: int|
            0 <= i < backup_path.last().bytes.len() ==> #[trigger] backup_path.last().bytes[i]
                == "camera.original.mp4"@[i] as u8,
{
}

/// A track is rescaled to a file in the directory of the camera track whose name
/// is that of the camera track with `.healed.mp4` in place of its extension: of
/// the last dot and what follows it, unless the name begins with that dot.
pub proof fn law_healed_stands_beside(camera_path: Seq<PartView>, healed_path: Seq<PartView>)
    requires
        healed_path == with_extension(camera_path, ascii(HEALED_EXTENSION@)),
    ensures
        camera_path.len() == 0 || !camera_path.last().is_name ==> healed_path == camera_path,
        camera_path.len() > 0 && camera_path.last().is_name ==> {
            let name = camera_path.last().bytes;
            let healed = healed_path.last().bytes;
            let stem = healed.len() - ".healed.mp4"@.len();
            &&& healed_path.len() == camera_path.len()
            &&& forall|i: int|
                0 <= i < healed_path.len() - 1 ==> #[trigger] healed_path[i] == camera_path[i]
            &&& healed_path.last().is_name
            &&& 0 <= stem <= name.len()
            &&& forall|i: int| 0 <= i < stem ==> #[trigger] healed[i] == name[i]
            &&& forall|i: int|
                stem <= i < healed.len() ==> #[trigger] healed[i] == ".healed.mp4"@[i - stem] as u8
            &&& if stem < name.len() {
                &&& stem > 0
                &&& name[stem] == '.' as u8
                &&& forall|i: int| stem < i < name.len() ==> #[trigger] name[i] != '.' as u8
            } else {
                forall|i: int| 0 < i < name.len() ==> #[trigger] name[i] != '.' as u8
            }
        },
{
    reveal_strlit("healed.mp4");
    reveal_strlit(".healed.mp4");
    if has_file_name(camera_path) {
        let name = camera_path.last().bytes;
        lemma_last_dot(name);
        let healed = healed_path.last().bytes;
        assert(healed == file_stem(name).push(DOT) + ascii(HEALED_EXTENSION@));
        assert(ascii(HEALED_EXTENSION@).len() == 10);
        let stem = file_stem(name).len() as int;
        assert forall|i: int| stem <= i < healed.len() implies #[trigger] healed[i]
            == ".healed.mp4"@[i - stem] as u8 by {
            if i > stem {
                assert(healed[i] == "healed.mp4"@[i - stem - 1] as u8);
            }
        }
    }
}

} // verus!
