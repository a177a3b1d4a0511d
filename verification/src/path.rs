//! Slash-separated paths: their names, and what `camino` reads out of them.

use camino::Utf8Path;
use vstd::prelude::*;

use crate::text;
use crate::text::{chars_of, text_of};
use crate::uri;

verus! {

/// The parts of a path between its slashes.
pub open spec fn segments(path: Seq<char>) -> Seq<Seq<char>>
    decreases path.len(),
    via segments_decreases
{
    let slash = text::index_of(path, '/');
    if slash >= path.len() {
        seq![path]
    } else {
        seq![path.take(slash)] + segments(path.skip(slash + 1))
    }
}

#[via_fn]
proof fn segments_decreases(path: Seq<char>) {
    text::lemma_index_of(path, '/');
}

/// The names a path is made of: its parts, without empty ones and `.`.
pub open spec fn names(path: Seq<char>) -> Seq<Seq<char>> {
    segments(path).filter(|part: Seq<char>| part.len() > 0 && part != "."@)
}

/// An ASCII letter.
pub open spec fn letter(c: char) -> bool {
    'a' <= c <= 'z' || 'A' <= c <= 'Z'
}

/// A path that begins with one slash.
pub open spec fn slash_rooted(path: Seq<char>) -> bool {
    path.len() > 0 && path[0] == '/' && (path.len() > 1 ==> path[1] != '/')
}

/// A path that begins with a drive and a slash.
pub open spec fn drive_rooted(path: Seq<char>) -> bool {
    path.len() >= 3 && letter(path[0]) && path[1] == ':' && path[2] == '/'
}

/// A path that reads the same on every system: it begins with one slash, or with a drive and holds
/// more than that, and it has no backslash. A drive is the first name of its paths.
pub open spec fn portable(path: Seq<char>) -> bool {
    &&& slash_rooted(path) || (drive_rooted(path) && names(path).len() >= 2)
    &&& forall|i: int| 0 <= i < path.len() ==> #[trigger] path[i] != '\\'
}

/// A portable path that is not right under its drive: its directory is portable too.
pub open spec fn nested(path: Seq<char>) -> bool {
    portable(path) && (drive_rooted(path) ==> names(path).len() >= 3)
}

/// Whether two paths begin alike: both with a slash, or both with the same drive.
pub open spec fn same_start(a: Seq<char>, b: Seq<char>) -> bool {
    ||| slash_rooted(a) && slash_rooted(b)
    ||| drive_rooted(a) && drive_rooted(b) && a[0] == b[0]
}

/// Whether every system compares two paths alike: portable ones, unless their drives differ in
/// nothing but case.
pub open spec fn comparable(a: Seq<char>, b: Seq<char>) -> bool {
    &&& portable(a) && portable(b)
    &&& drive_rooted(a) && drive_rooted(b) && a[0] != b[0] ==> text::ascii_lower(a[0])
        != text::ascii_lower(b[0])
}

/// Whether a path is a directory's, or in it, by whole names.
pub open spec fn within(path: Seq<char>, base: Seq<char>) -> bool {
    same_start(path, base) && names(base).is_prefix_of(names(path))
}

/// A path with slashes in place of backslashes.
pub open spec fn slashed(path: Seq<char>) -> Seq<char> {
    path.map_values(
        |c: char|
            if c == '\\' {
                '/'
            } else {
                c
            },
    )
}

/// The names a path is made of where slashes and backslashes both separate them.
pub open spec fn parts(path: Seq<char>) -> Seq<Seq<char>> {
    names(slashed(path))
}

/// The parts of a portable path are its names.
pub proof fn lemma_portable_parts(path: Seq<char>)
    requires
        portable(path),
    ensures
        parts(path) == names(path),
{
    assert(slashed(path) =~= path);
}

/// A path in the form in which files are told apart: with slashes, and with its drive in upper case.
pub open spec fn normalized(path: Seq<char>) -> Seq<char> {
    let slashed = slashed(path);
    if slashed.len() >= 2 && 'a' <= slashed[0] <= 'z' && slashed[1] == ':' {
        slashed.update(0, uri::ascii_upper(slashed[0]))
    } else {
        slashed
    }
}

/// A path, normalized where there is one.
pub open spec fn normalized_opt(path: Option<Seq<char>>) -> Option<Seq<char>> {
    match path {
        Some(path) => Some(normalized(path)),
        None => None,
    }
}

/// A path in the form in which files are told apart: an editor, a watcher and a walk may spell one
/// path in different ways.
pub fn normalize_path(path: &str) -> (r: String)
    ensures
        r@ == normalized(path@),
{
    let mut chars = chars_of(path);
    let mut i: usize = 0;
    while i < chars.len()
        invariant
            0 <= i <= chars@.len(),
            chars@.len() == path@.len(),
            forall|k: int| 0 <= k < i ==> #[trigger] chars@[k] == slashed(path@)[k],
            forall|k: int| i <= k < chars@.len() ==> #[trigger] chars@[k] == path@[k],
        decreases chars@.len() - i,
    {
        if chars[i] == '\\' {
            chars.set(i, '/');
        }
        i = i + 1;
    }
    proof {
        assert(chars@ =~= slashed(path@));
    }
    if chars.len() >= 2 && 'a' <= chars[0] && chars[0] <= 'z' && chars[1] == ':' {
        let upper: char = (chars[0] as u8 - 32) as char;
        chars.set(0, upper);
    }
    let r = text_of(&chars, 0, chars.len());
    proof {
        assert(r@ =~= normalized(path@));
    }
    r
}

/// A normalized path stays as it is.
pub proof fn lemma_normalize_idempotent(path: Seq<char>)
    ensures
        normalized(normalized(path)) == normalized(path),
{
    let once = normalized(path);
    assert(slashed(once) =~= once) by {
        assert forall|i: int| 0 <= i < once.len() implies once[i] != '\\' by {
            assert(slashed(path)[i] != '\\');
        }
    }
}

/// Two spellings of a path that differ in the direction of their slashes and in the case of the
/// drive alone have one normalized form.
pub proof fn lemma_spellings_agree(a: Seq<char>, b: Seq<char>)
    requires
        a.len() == b.len() >= 2,
        slashed(a).skip(1) == slashed(b).skip(1),
        slashed(a)[0] == slashed(b)[0] || (a[1] == ':' && uri::ascii_upper(a[0])
            == uri::ascii_upper(b[0])),
    ensures
        normalized(a) == normalized(b),
{
    let one = slashed(a);
    let two = slashed(b);
    assert forall|i: int| 1 <= i < one.len() implies one[i] == two[i] by {
        assert(one[i] == one.skip(1)[i - 1]);
        assert(two[i] == two.skip(1)[i - 1]);
    }
    assert(one[1] == two[1]);
    assert(normalized(a) =~= normalized(b));
}

/// A drive and nothing more.
pub open spec fn drive_alone(path: Seq<char>) -> bool {
    path.len() == 2 && path[1] == ':'
}

/// The last name of a path, unless that is `..`.
pub open spec fn file_name_of(path: Seq<char>) -> Option<Seq<char>> {
    if names(path).len() == 0 || names(path).last() == ".."@ {
        None
    } else {
        Some(names(path).last())
    }
}

/// The index of the last `.` of a name, or -1.
pub open spec fn last_dot(name: Seq<char>) -> int
    decreases name.len(),
{
    if name.len() == 0 {
        -1
    } else if name.last() == '.' {
        name.len() - 1
    } else {
        last_dot(name.drop_last())
    }
}

/// What stands behind the last `.` of a name that does not begin with it.
pub open spec fn extension_in(name: Seq<char>) -> Option<Seq<char>> {
    if last_dot(name) <= 0 {
        None
    } else {
        Some(name.skip(last_dot(name) + 1))
    }
}

/// The extension of a path's last name.
pub open spec fn extension_of(path: Seq<char>) -> Option<Seq<char>> {
    match file_name_of(path) {
        Some(name) => extension_in(name),
        None => None,
    }
}

// ---------------------------------------------------------------------------
// What a system reads out of a path. Systems differ in what separates names and in what a path can
// begin with, so each of these is named by the path and by a system. A portable path reads the same
// on all of them.
// ---------------------------------------------------------------------------

/// The last name of a path on a system.
pub uninterp spec fn system_file_name(path: Seq<char>, system: nat) -> Option<Seq<char>>;

/// The extension of a path on a system.
pub uninterp spec fn system_extension(path: Seq<char>, system: nat) -> Option<Seq<char>>;

/// The path without its last name on a system.
pub uninterp spec fn system_parent(path: Seq<char>, system: nat) -> Option<Seq<char>>;

/// Whether two paths are equal on a system.
pub uninterp spec fn system_same_path(a: Seq<char>, b: Seq<char>, system: nat) -> bool;

/// Whether a path is a directory's, or in it, on a system.
pub uninterp spec fn system_starts_with(path: Seq<char>, base: Seq<char>, system: nat) -> bool;

/// A path with a name behind it on a system.
pub uninterp spec fn system_join(base: Seq<char>, name: Seq<char>, system: nat) -> Seq<char>;

/// Whether a system reads that as the last name of a path.
pub open spec fn reads_file_name(path: Seq<char>, r: Option<Seq<char>>) -> bool {
    &&& exists|system: nat| r == #[trigger] system_file_name(path, system)
    &&& portable(path) ==> r == file_name_of(path)
}

/// Whether a system reads that as the extension of a path.
pub open spec fn reads_extension(path: Seq<char>, r: Option<Seq<char>>) -> bool {
    &&& exists|system: nat| r == #[trigger] system_extension(path, system)
    &&& portable(path) ==> r == extension_of(path)
}

/// Whether a system reads that as the path without its last name.
pub open spec fn reads_parent(path: Seq<char>, r: Option<Seq<char>>) -> bool {
    &&& exists|system: nat| r == #[trigger] system_parent(path, system)
    &&& portable(path) ==> r is Some == (names(path).len() > 0)
    &&& portable(path) && r is Some ==> names(r->0) == names(path).drop_last()
    &&& nested(path) && r is Some ==> portable(r->0) && same_start(r->0, path)
}

/// Whether that is what a system makes of two paths being equal.
pub open spec fn reads_same_path(a: Seq<char>, b: Seq<char>, r: bool) -> bool {
    &&& exists|system: nat| r == #[trigger] system_same_path(a, b, system)
    &&& comparable(a, b) ==> r == (same_start(a, b) && names(a) == names(b))
}

/// Whether that is what a system makes of a path being a directory's, or in it.
pub open spec fn reads_within(path: Seq<char>, base: Seq<char>, r: bool) -> bool {
    &&& exists|system: nat| r == #[trigger] system_starts_with(path, base, system)
    &&& comparable(path, base) ==> r == within(path, base)
}

/// `Utf8Path::file_name`: the last name of the path, `None` for one that ends in `..` or has no
/// name. What separates names in a path that is not portable depends on the system, and which system
/// this is stays unsaid.
#[verifier::external_body]
pub(crate) fn file_name(path: &str) -> (r: Option<String>)
    ensures
        portable(path@) ==> text::opt_string(r) == file_name_of(path@),
        exists|system: nat| text::opt_string(r) == #[trigger] system_file_name(path@, system),
{
    Utf8Path::new(path).file_name().map(|name| name.to_string())
}

/// `Utf8Path::extension`: what stands behind the last `.` of the path's last name, where there is
/// something before it. Of a path that is not portable, it is that of some system.
#[verifier::external_body]
pub(crate) fn extension(path: &str) -> (r: Option<String>)
    ensures
        portable(path@) ==> text::opt_string(r) == extension_of(path@),
        exists|system: nat| text::opt_string(r) == #[trigger] system_extension(path@, system),
{
    Utf8Path::new(path).extension().map(|name| name.to_string())
}

/// `Utf8Path::parent`: the path without its last name, `None` for the root. That of a portable path
/// begins as the path does, and is portable unless it is a drive. Of another path, it is that of some
/// system.
#[verifier::external_body]
pub(crate) fn parent(path: &str) -> (r: Option<String>)
    ensures
        portable(path@) ==> r is Some == (names(path@).len() > 0),
        portable(path@) && r is Some ==> names(r->0@) == names(path@).drop_last(),
        nested(path@) && r is Some ==> portable(r->0@) && same_start(r->0@, path@),
        exists|system: nat| text::opt_string(r) == #[trigger] system_parent(path@, system),
{
    Utf8Path::new(path).parent().map(|name| name.to_string())
}

/// `<Utf8Path as PartialEq>::eq`: two comparable paths are equal when they begin alike and have the
/// same names. Of others, it is what some system makes of them.
#[verifier::external_body]
pub(crate) fn same_path(a: &str, b: &str) -> (r: bool)
    ensures
        comparable(a@, b@) ==> r == (same_start(a@, b@) && names(a@) == names(b@)),
        exists|system: nat| r == #[trigger] system_same_path(a@, b@, system),
{
    Utf8Path::new(a) == Utf8Path::new(b)
}

/// `Utf8Path::starts_with`: whether the paths begin alike, and the names of `base` begin those of
/// `path`. Said of comparable paths; of others, it is what some system makes of them.
#[verifier::external_body]
pub(crate) fn path_starts_with(path: &str, base: &str) -> (r: bool)
    ensures
        comparable(path@, base@) ==> r == within(path@, base@),
        exists|system: nat| r == #[trigger] system_starts_with(path@, base@, system),
{
    Utf8Path::new(path).starts_with(base)
}

/// A text that can be joined to a path as one name on every system.
pub open spec fn plain_name(name: Seq<char>) -> bool {
    &&& name.len() > 0 && name != "."@ && name != ".."@
    &&& forall|i: int|
        0 <= i < name.len() ==> #[trigger] name[i] != '/' && name[i] != '\\' && name[i] != ':'
}

/// A separator of names, on some system.
pub open spec fn separator(c: char) -> bool {
    c == '/' || c == '\\'
}

/// A path to which every system joins a name in the same way, but for the direction of the slash.
pub open spec fn joinable(base: Seq<char>) -> bool {
    &&& !drive_alone(base)
    &&& base.len() > 0 ==> base.last() != '\\'
    &&& base.len() >= 2 ==> !(separator(base[0]) && separator(base[1]))
}

/// A path, in slashes, with a name behind it.
pub open spec fn with_name(base: Seq<char>, name: Seq<char>) -> Seq<char> {
    if base.len() == 0 || base.last() == '/' {
        base + name
    } else {
        base.push('/') + name
    }
}

/// Whether a system joins a name to a path in that way.
pub open spec fn reads_join(base: Seq<char>, name: Seq<char>, r: Seq<char>) -> bool {
    &&& exists|system: nat| r == #[trigger] system_join(base, name, system)
    &&& !drive_alone(base) && plain_name(name) ==> !drive_alone(r) && parts(r) == parts(base).push(
        name,
    )
    &&& joinable(base) && plain_name(name) ==> joinable(r) && slashed(r) == with_name(
        slashed(base),
        name,
    )
}

/// `Utf8Path::join`: the name is put behind the path, with the system's separator between them
/// unless the path is empty or ends in one. Its parts are said of plain names; to a drive alone they
/// are joined otherwise on some systems. The text is said of joinable paths, up to the direction of
/// its slashes. In every other respect it is what some system makes of the two.
#[verifier::external_body]
pub(crate) fn path_join(base: &str, name: &str) -> (r: String)
    ensures
        !drive_alone(base@) && plain_name(name@) ==> !drive_alone(r@) && parts(r@) == parts(
            base@,
        ).push(name@),
        joinable(base@) && plain_name(name@) ==> joinable(r@) && slashed(r@) == with_name(
            slashed(base@),
            name@,
        ),
        exists|system: nat| r@ == #[trigger] system_join(base@, name@, system),
{
    Utf8Path::new(base).join(name).to_string()
}

/// A path has the parts before a slash and then those behind it.
pub proof fn lemma_parts_around_a_slash(a: Seq<char>, b: Seq<char>)
    ensures
        segments(a + seq!['/'] + b) == segments(a) + segments(b),
    decreases a.len(),
{
    let whole = a + seq!['/'] + b;
    text::lemma_index_of(a, '/');
    let slash = text::index_of(a, '/');
    assert forall|j: int| 0 <= j < slash implies whole[j] != '/' by {
        assert(whole[j] == a[j]);
    }
    assert(whole[slash] == '/');
    text::lemma_index_of_is(whole, '/', slash);
    assert(whole.take(slash) =~= a.take(slash));
    if slash < a.len() {
        assert(whole.skip(slash + 1) =~= a.skip(slash + 1) + seq!['/'] + b);
        lemma_parts_around_a_slash(a.skip(slash + 1), b);
        assert(segments(whole) =~= segments(a) + segments(b));
    } else {
        assert(a.take(slash) =~= a);
        assert(whole.skip(slash + 1) =~= b);
        assert(segments(whole) =~= segments(a) + segments(b));
    }
}

/// A path has the names of what stands before a slash and then those of what stands behind it.
pub proof fn lemma_names_around_a_slash(a: Seq<char>, b: Seq<char>)
    ensures
        names(a + seq!['/'] + b) == names(a) + names(b),
{
    lemma_parts_around_a_slash(a, b);
    Seq::filter_distributes_over_add(
        segments(a),
        segments(b),
        |part: Seq<char>| part.len() > 0 && part != "."@,
    );
}

/// A text without a slash is one name, unless it is empty or a dot, which are none.
pub proof fn lemma_one_name(name: Seq<char>)
    requires
        forall|i: int| 0 <= i < name.len() ==> #[trigger] name[i] != '/',
    ensures
        name.len() > 0 && name != "."@ ==> names(name) == seq![name],
        name.len() == 0 || name == "."@ ==> names(name).len() == 0,
{
    text::lemma_index_of_is(name, '/', name.len() as int);
    reveal(Seq::filter);
    let keep = |part: Seq<char>| part.len() > 0 && part != "."@;
    let all = segments(name);
    assert(all == seq![name]);
    assert(all.drop_last() =~= Seq::<Seq<char>>::empty());
    assert(all.drop_last().filter(keep) =~= Seq::<Seq<char>>::empty());
    if keep(name) {
        assert(all.filter(keep) =~= seq![name]);
    }
}

/// The last name of a path is what stands behind its last slash, and its directory's names are all
/// the others.
pub proof fn lemma_last_name(dir: Seq<char>, name: Seq<char>)
    requires
        plain_name(name),
    ensures
        names(dir + seq!['/'] + name) == names(dir).push(name),
        file_name_of(dir + seq!['/'] + name) == Some(name),
        names(with_name(dir, name)) == names(dir).push(name),
{
    lemma_names_around_a_slash(dir, name);
    lemma_one_name(name);
    assert(names(dir) + seq![name] =~= names(dir).push(name));
    if dir.len() == 0 {
        assert(dir =~= Seq::<char>::empty());
        lemma_one_name(dir);
        assert(with_name(dir, name) =~= name);
        assert(names(dir).push(name) =~= seq![name]);
    } else if dir.last() == '/' {
        let before = dir.drop_last();
        assert(dir =~= before + seq!['/'] + Seq::<char>::empty());
        lemma_names_around_a_slash(before, Seq::empty());
        lemma_one_name(Seq::<char>::empty());
        assert(names(dir) =~= names(before));
        assert(with_name(dir, name) =~= before + seq!['/'] + name);
        lemma_names_around_a_slash(before, name);
        assert(names(before) + seq![name] =~= names(dir).push(name));
    } else {
        assert(with_name(dir, name) =~= dir + seq!['/'] + name);
    }
}

/// A path that ends in `..` or has no name has no last name.
pub proof fn lemma_no_last_name(path: Seq<char>)
    ensures
        names(path).len() == 0 ==> file_name_of(path) is None,
        names(path).len() > 0 && names(path).last() == ".."@ ==> file_name_of(path) is None,
        file_name_of(path) is None ==> extension_of(path) is None,
{
}

/// Where the last dot of a name stands.
pub proof fn lemma_last_dot(name: Seq<char>)
    ensures
        -1 <= last_dot(name) < name.len(),
        last_dot(name) >= 0 ==> name[last_dot(name)] == '.',
        forall|j: int| last_dot(name) < j < name.len() ==> #[trigger] name[j] != '.',
    decreases name.len(),
{
    if name.len() > 0 && name.last() != '.' {
        let rest = name.drop_last();
        lemma_last_dot(rest);
        assert forall|j: int| last_dot(name) < j < name.len() implies #[trigger] name[j]
            != '.' by {
            if j < rest.len() {
                assert(rest[j] == name[j]);
            }
        }
    }
}

/// The extension of a name is what stands behind its last dot; a name without a dot, or with its
/// only dot at the front, has none.
pub proof fn lemma_extension(stem: Seq<char>, ext: Seq<char>)
    requires
        forall|i: int| 0 <= i < ext.len() ==> #[trigger] ext[i] != '.',
    ensures
        stem.len() > 0 ==> extension_in(stem + seq!['.'] + ext) == Some(ext),
        extension_in(ext) is None,
        extension_in(seq!['.'] + ext) is None,
{
    let name = stem + seq!['.'] + ext;
    lemma_last_dot(name);
    lemma_last_dot(ext);
    let hidden = seq!['.'] + ext;
    lemma_last_dot(hidden);
    assert(name[stem.len() as int] == '.');
    assert forall|j: int| stem.len() < j < name.len() implies #[trigger] name[j] != '.' by {
        assert(name[j] == ext[j - stem.len() - 1]);
    }
    assert(last_dot(name) == stem.len());
    assert(name.skip(stem.len() as int + 1) =~= ext);
    assert forall|j: int| 0 < j < hidden.len() implies #[trigger] hidden[j] != '.' by {
        assert(hidden[j] == ext[j - 1]);
    }
    assert(last_dot(hidden) <= 0);
}

/// The extension of a path is that of its last name.
pub proof fn lemma_extension_of_a_file(dir: Seq<char>, stem: Seq<char>, ext: Seq<char>)
    requires
        stem.len() > 0,
        plain_name(stem + seq!['.'] + ext),
        forall|i: int| 0 <= i < ext.len() ==> #[trigger] ext[i] != '.',
    ensures
        extension_of(dir + seq!['/'] + (stem + seq!['.'] + ext)) == Some(ext),
{
    lemma_last_name(dir, stem + seq!['.'] + ext);
    lemma_extension(stem, ext);
}

/// A file is within its directory and in the directories around it, but not in one beside it, however
/// the two names begin.
pub proof fn lemma_where_a_file_is(dir: Seq<char>, name: Seq<char>, other: Seq<char>)
    requires
        (slash_rooted(dir) && dir.len() > 1) || drive_rooted(dir),
        plain_name(name),
        plain_name(other),
        name != other,
    ensures
        within(dir, dir),
        within(dir + seq!['/'] + name, dir),
        !within(dir + seq!['/'] + name, dir + seq!['/'] + other),
        !within(dir, dir + seq!['/'] + name),
{
    lemma_last_name(dir, name);
    lemma_last_name(dir, other);
    let file = dir + seq!['/'] + name;
    let beside = dir + seq!['/'] + other;
    assert(file[0] == dir[0] && file[1] == dir[1]);
    assert(names(dir).is_prefix_of(names(file))) by {
        assert(names(file).subrange(0, names(dir).len() as int) =~= names(dir));
    }
    assert(names(file)[names(dir).len() as int] == name);
    assert(names(beside)[names(dir).len() as int] == other);
    assert(names(dir).is_prefix_of(names(dir))) by {
        assert(names(dir).subrange(0, names(dir).len() as int) =~= names(dir));
    }
}

/// Normalizing changes backslashes to slashes and a drive to upper case, and nothing else.
pub proof fn lemma_what_normalizing_changes(path: Seq<char>, i: int)
    requires
        0 <= i < path.len(),
    ensures
        normalized(path).len() == path.len(),
        path[i] == '\\' ==> normalized(path)[i] == '/',
        i > 0 && path[i] != '\\' ==> normalized(path)[i] == path[i],
        i == 0 && path[0] != '\\' && !(path.len() > 1 && path[1] == ':') ==> normalized(path)[0]
            == path[0],
        i == 0 && path.len() > 1 && path[1] == ':' && 'a' <= path[0] <= 'z' ==> normalized(
            path,
        )[0] as int == path[0] as int - 32,
        i == 0 && path[0] != '\\' && !('a' <= path[0] <= 'z') ==> normalized(path)[0] == path[0],
{
}

/// There is a normalized path exactly where there is a path.
pub proof fn lemma_normalized_where_there_is_one(path: Option<Seq<char>>)
    ensures
        path is None <==> normalized_opt(path) is None,
        path matches Some(path) ==> normalized_opt(Some(path)) == Some(normalized(path)),
{
}

} // verus!
