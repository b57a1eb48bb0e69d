//! Robot description formats: detection and dispatching.

use vstd::prelude::*;
use vstd::string::*;

use crate::text::{contains, same};

verus! {

/// Supported robot description formats.
#[derive(Clone, Copy, Debug, PartialEq, Eq, Structural)]
pub enum RobotFormat {
    Urdf,
    Sdf,
    Mjcf,
    IsaacUsd,
    /// The native master format. It carries the whole model.
    Misa,
}

/// The format that a lower-case file extension stands for.
pub open spec fn format_for(ext: Seq<char>) -> Option<RobotFormat> {
    if ext == "urdf"@ || ext == "xacro"@ {
        Some(RobotFormat::Urdf)
    } else if ext == "sdf"@ || ext == "world"@ {
        Some(RobotFormat::Sdf)
    } else if ext == "xml"@ || ext == "mjcf"@ {
        Some(RobotFormat::Mjcf)
    } else if ext == "usda"@ || ext == "usd"@ {
        Some(RobotFormat::IsaacUsd)
    } else if ext == "misa"@ {
        Some(RobotFormat::Misa)
    } else {
        None
    }
}

/// The format of a file with a lower-case extension whose contents, where they
/// could be read, are `content`. Only XML files are told apart by contents.
pub open spec fn format_for_file(ext: Seq<char>, content: Option<Seq<char>>) -> Option<RobotFormat> {
    match (format_for(ext), content) {
        (Some(RobotFormat::Mjcf), Some(c)) => if crate::text::is_infix(c, "<mujoco"@) {
            Some(RobotFormat::Mjcf)
        } else if crate::text::is_infix(c, "<sdf"@) {
            Some(RobotFormat::Sdf)
        } else if crate::text::is_infix(c, "<robot"@) {
            Some(RobotFormat::Urdf)
        } else {
            Some(RobotFormat::Mjcf)
        },
        (found, _) => found,
    }
}

/// What `str::to_lowercase` returns for a string.
pub uninterp spec fn lowercase(s: Seq<char>) -> Seq<char>;

/// Calls `str::to_lowercase`. The result is a function of the string alone; of
/// a string of ASCII characters it lowers the letters and keeps the rest.
#[verifier::external_body]
fn lowercased(s: &str) -> (r: String)
    ensures
        r@ == lowercase(s@),
        s.is_ascii() ==> r@ == lower_ascii(s@),
{
    s.to_lowercase()
}

/// A character that may end a directory or a drive in a path.
pub open spec fn is_separator(c: char) -> bool {
    c == '/' || c == '\\' || c == ':'
}

/// `path` begins with two separators: some platforms take what follows for the
/// name of a server.
pub open spec fn names_server(path: Seq<char>) -> bool {
    path.len() >= 2 && is_separator(path[0]) && is_separator(path[1])
}

/// `path` means the same on every platform: the slash is its only separator, and it
/// names neither a drive nor a server.
pub open spec fn is_portable(path: Seq<char>) -> bool {
    !path.contains('\\') && !path.contains(':') && !names_server(path)
}

/// What follows the last `c`; everything where there is none.
pub open spec fn after_last(s: Seq<char>, c: char) -> Seq<char>
    decreases s.len(),
{
    if s.len() == 0 || s.last() == c {
        Seq::empty()
    } else {
        after_last(s.drop_last(), c).push(s.last())
    }
}

/// The name of the file or directory at the end of a portable path. Slashes at the
/// end, and dots that stand for the directory itself, are not part of it; the root
/// and the directory above have none.
pub open spec fn file_name(path: Seq<char>) -> Option<Seq<char>>
    decreases path.len(),
{
    let name = after_last(path, '/');
    if path.len() == 0 {
        None
    } else if name.len() == 0 || name == seq!['.'] {
        file_name(path.drop_last())
    } else if name == seq!['.', '.'] {
        None
    } else {
        Some(name)
    }
}

/// The extension of a file name: what follows its last dot. A name without a dot, or
/// whose only dot comes first, has none.
pub open spec fn extension_of_name(name: Seq<char>) -> Option<Seq<char>> {
    let ext = after_last(name, '.');
    if ext.len() + 1 < name.len() {
        Some(ext)
    } else {
        None
    }
}

/// A file name without its extension.
pub open spec fn stem_of_name(name: Seq<char>) -> Seq<char> {
    match extension_of_name(name) {
        Some(ext) => name.take(name.len() - ext.len() - 1),
        None => name,
    }
}

/// The extension of a portable path.
pub open spec fn portable_extension(path: Seq<char>) -> Option<Seq<char>> {
    match file_name(path) {
        Some(name) => extension_of_name(name),
        None => None,
    }
}

/// The stem of a portable path.
pub open spec fn portable_stem(path: Seq<char>) -> Option<Seq<char>> {
    match file_name(path) {
        Some(name) => Some(stem_of_name(name)),
        None => None,
    }
}

/// `path` is a file name, or ends in one, of the form `stem.ext`, on every
/// platform.
pub open spec fn has_extension(path: Seq<char>, ext: Seq<char>) -> bool {
    let n = path.len() - ext.len() - 1;
    &&& !names_server(path)
    &&& ext.len() > 0
    &&& n > 0
    &&& path[n] == '.'
    &&& path.skip(n + 1) == ext
    &&& !is_separator(path[n - 1])
    &&& forall|i: int| 0 <= i < ext.len() ==> ext[i] != '.' && !is_separator(#[trigger] ext[i])
}

/// The extension of `path` is `ext`, or it has none, on every platform. Of paths that
/// mean different things on different platforms this holds of none, unless they end
/// in `stem.ext` or hold no dot.
pub open spec fn extension_is(path: Seq<char>, ext: Option<Seq<char>>) -> bool {
    ||| is_portable(path) && ext == portable_extension(path)
    ||| ext matches Some(e) && has_extension(path, e)
    ||| !path.contains('.') && ext is None
}

/// Calls `std::path::Path::extension` on a path given as a string. The extension is
/// what follows the last dot of the file name, and there is none where the name has
/// no dot but in front. The file name is the last part of the path, without regard to
/// slashes at the end and to dots that stand for the directory itself. What counts
/// as a separator in other paths depends on the platform and is left open.
#[verifier::external_body]
fn path_extension(path: &str) -> (r: Option<String>)
    ensures
        forall|ext: Option<Seq<char>>| #[trigger]
            extension_is(path@, ext) ==> match r {
                Some(e) => ext == Some(e@),
                None => ext is None,
            },
{
    let ext = std::path::Path::new(path).extension()?;
    Some(ext.to_str()?.to_string())
}

/// A text in lower case; of ASCII characters only the letters change.
pub open spec fn lower_ascii(s: Seq<char>) -> Seq<char> {
    s.map_values(|c: char| crate::text::ascii_lower(c))
}

/// The lower-case extension of a path: nothing where it has none.
fn lowered_extension(path: &str) -> (r: Option<String>)
    ensures
        forall|ext: Option<Seq<char>>| #[trigger]
            extension_is(path@, ext) ==> match r {
                Some(e) => ext is Some && e@ == lowercase(ext->0),
                None => ext is None,
            },
        forall|e: Seq<char>|
            extension_is(path@, Some(e)) && #[trigger] vstd::utf8::is_ascii_chars(e) ==> lowercase(
                e,
            ) == lower_ascii(e),
{
    match path_extension(path) {
        Some(ext) => {
            let low: String = lowercased(ext.as_str());
            proof {
                assert forall|e: Seq<char>|
                    extension_is(path@, Some(e)) && #[trigger] vstd::utf8::is_ascii_chars(
                        e,
                    ) implies lowercase(e) == lower_ascii(e) by {
                    assert(extension_is(path@, Some(e)));
                    assert(ext@ == e);
                }
            }
            Some(low)
        },
        None => {
            proof {
                assert forall|e: Seq<char>|
                    extension_is(path@, Some(e)) && #[trigger] vstd::utf8::is_ascii_chars(
                        e,
                    ) implies lowercase(e) == lower_ascii(e) by {
                    assert(extension_is(path@, Some(e)));
                }
            }
            None
        },
    }
}

/// What a path is taken for by its extension alone.
pub open spec fn format_by_extension(ext: Option<Seq<char>>) -> Option<RobotFormat> {
    match ext {
        Some(e) => format_for(lowercase(e)),
        None => None,
    }
}

/// What a path is taken for by its extension and contents.
pub open spec fn format_by_file(
    ext: Option<Seq<char>>,
    content: Option<Seq<char>>,
) -> Option<RobotFormat> {
    match ext {
        Some(e) => format_for_file(lowercase(e), content),
        None => None,
    }
}

/// Extensions in ASCII are lowered letter by letter.
pub open spec fn ascii_is_lowered(path: Seq<char>) -> bool {
    forall|e: Seq<char>|
        extension_is(path, Some(e)) && #[trigger] vstd::utf8::is_ascii_chars(e) ==> lowercase(e)
            == lower_ascii(e)
}

impl RobotFormat {
    /// All supported formats for UI listing.
    pub const ALL: [RobotFormat; 5] = [
        RobotFormat::Misa,
        RobotFormat::Urdf,
        RobotFormat::Sdf,
        RobotFormat::Mjcf,
        RobotFormat::IsaacUsd,
    ];

    /// Whether this format supports import (loading).
    pub fn supports_import(self) -> (r: bool)
        ensures
            r,
    {
        matches!(
            self,
            RobotFormat::Urdf
                | RobotFormat::Sdf
                | RobotFormat::Mjcf
                | RobotFormat::IsaacUsd
                | RobotFormat::Misa
        )
    }

    /// Whether this format supports export.
    pub fn supports_export(self) -> (r: bool)
        ensures
            r,
    {
        true
    }

    /// The display name of a format.
    pub open spec fn label_of(self) -> Seq<char> {
        match self {
            RobotFormat::Urdf => "URDF"@,
            RobotFormat::Sdf => "SDF"@,
            RobotFormat::Mjcf => "MJCF"@,
            RobotFormat::IsaacUsd => "Isaac (USD ASCII)"@,
            RobotFormat::Misa => "Misa"@,
        }
    }

    /// Display name.
    pub fn label(self) -> (r: &'static str)
        ensures
            r@ == self.label_of(),
    {
        match self {
            RobotFormat::Urdf => "URDF",
            RobotFormat::Sdf => "SDF",
            RobotFormat::Mjcf => "MJCF",
            RobotFormat::IsaacUsd => "Isaac (USD ASCII)",
            RobotFormat::Misa => "Misa",
        }
    }

    /// The file extension of a format.
    pub open spec fn extension_of(self) -> Seq<char> {
        match self {
            RobotFormat::Urdf => "urdf"@,
            RobotFormat::Sdf => "sdf"@,
            RobotFormat::Mjcf => "xml"@,
            RobotFormat::IsaacUsd => "usda"@,
            RobotFormat::Misa => "misa"@,
        }
    }

    /// File extension.
    pub fn extension(self) -> (r: &'static str)
        ensures
            r@ == self.extension_of(),
    {
        match self {
            RobotFormat::Urdf => "urdf",
            RobotFormat::Sdf => "sdf",
            RobotFormat::Mjcf => "xml",
            RobotFormat::IsaacUsd => "usda",
            RobotFormat::Misa => "misa",
        }
    }

    /// The format that a lower-case extension stands for.
    pub fn for_extension(ext: &str) -> (r: Option<RobotFormat>)
        ensures
            r == format_for(ext@),
    {
        if same(ext, "urdf") || same(ext, "xacro") {
            Some(RobotFormat::Urdf)
        } else if same(ext, "sdf") || same(ext, "world") {
            Some(RobotFormat::Sdf)
        } else if same(ext, "xml") || same(ext, "mjcf") {
            Some(RobotFormat::Mjcf)
        } else if same(ext, "usda") || same(ext, "usd") {
            Some(RobotFormat::IsaacUsd)
        } else if same(ext, "misa") {
            Some(RobotFormat::Misa)
        } else {
            None
        }
    }

    /// Detect the format from the file extension only. For `.xml` files this
    /// is MJCF; `detect` looks at the contents.
    pub fn detect_from_extension(path: &str) -> (r: Option<RobotFormat>)
        ensures
            forall|ext: Option<Seq<char>>| #[trigger]
                extension_is(path@, ext) ==> r == format_by_extension(ext),
            ascii_is_lowered(path@),
    {
        match lowered_extension(path) {
            Some(ext) => RobotFormat::for_extension(ext.as_str()),
            None => None,
        }
    }

    /// The format of a file with lower-case extension `ext` whose contents,
    /// where they could be read, are `content`.
    pub fn for_file(ext: &str, content: Option<&str>) -> (r: Option<RobotFormat>)
        ensures
            r == format_for_file(
                ext@,
                match content {
                    Some(c) => Some(c@),
                    None => None,
                },
            ),
    {
        match RobotFormat::for_extension(ext) {
            Some(RobotFormat::Mjcf) => match content {
                Some(c) => if contains(c, "<mujoco") {
                    Some(RobotFormat::Mjcf)
                } else if contains(c, "<sdf") {
                    Some(RobotFormat::Sdf)
                } else if contains(c, "<robot") {
                    Some(RobotFormat::Urdf)
                } else {
                    Some(RobotFormat::Mjcf)
                },
                None => Some(RobotFormat::Mjcf),
            },
            found => found,
        }
    }

    /// Detect the format from the file extension and, where the extension is
    /// shared, from the file contents (`None` if they could not be read).
    pub fn detect(path: &str, content: Option<&str>) -> (r: Option<RobotFormat>)
        ensures
            forall|ext: Option<Seq<char>>| #[trigger]
                extension_is(path@, ext) ==> r == format_by_file(ext, marker_view(content)),
            ascii_is_lowered(path@),
    {
        match lowered_extension(path) {
            Some(ext) => RobotFormat::for_file(ext.as_str(), content),
            None => None,
        }
    }
}

/// The extension of a format is detected as that format.
pub proof fn law_extension_round_trip(f: RobotFormat)
    ensures
        format_for(f.extension_of()) == Some(f),
{
    reveal_extensions();
}

/// Without contents to look at, a file is taken for what its extension says.
pub proof fn law_detect_without_content(ext: Seq<char>)
    ensures
        format_for_file(ext, None) == format_for(ext),
{
}

/// Contents never turn a known file into an unknown one or the reverse.
pub proof fn law_content_keeps_known(ext: Seq<char>, content: Option<Seq<char>>)
    ensures
        format_for_file(ext, content) is Some <==> format_for(ext) is Some,
{
}

/// Contents matter for the extensions that formats share, and for no others.
pub proof fn law_only_shared_extensions_are_looked_into(ext: Seq<char>, content: Option<Seq<char>>)
    requires
        ext != "xml"@,
        ext != "mjcf"@,
    ensures
        format_for_file(ext, content) == format_for(ext),
{
}

/// The extension that the file name ends in is the one that is looked at, wherever
/// the file lies: a portable path of the form `dir/stem.ext` has the extension `ext`.
pub proof fn law_portable_paths_end_in_their_extension(path: Seq<char>, ext: Seq<char>)
    requires
        is_portable(path),
        has_extension(path, ext),
    ensures
        portable_extension(path) == Some(ext),
{
    let n = path.len() - ext.len() - 1;
    let stem = path.take(n);
    let name = after_last(path, '/');
    assert(path =~= stem.push('.') + ext);
    assert forall|i: int| 0 <= i < ext.len() implies #[trigger] ext[i] != '/' by {}
    lemma_after_last_append(stem.push('.'), ext, '/');
    assert(stem.push('.').drop_last() =~= stem);
    assert(name =~= after_last(stem, '/').push('.') + ext);
    assert(stem.last() == path[n - 1]);
    assert(after_last(stem, '/').len() > 0);
    lemma_after_last_append(after_last(stem, '/').push('.'), ext, '.');
    assert(after_last(after_last(stem, '/').push('.'), '.') =~= Seq::<char>::empty());
    assert(after_last(name, '.') =~= ext);
}

/// What follows the last `c` reaches over an end without a `c`.
proof fn lemma_after_last_append(s: Seq<char>, end: Seq<char>, c: char)
    requires
        forall|i: int| 0 <= i < end.len() ==> #[trigger] end[i] != c,
    ensures
        after_last(s + end, c) == after_last(s, c) + end,
    decreases end.len(),
{
    if end.len() == 0 {
        assert(s + end =~= s);
        assert(after_last(s, c) + end =~= after_last(s, c));
    } else {
        let all = s + end;
        assert(all.drop_last() =~= s + end.drop_last());
        assert(all.last() == end.last());
        lemma_after_last_append(s, end.drop_last(), c);
        assert((after_last(s, c) + end.drop_last()).push(end.last()) =~= after_last(s, c) + end);
    }
}

/// The position of a format's handler in the built-in registry. The native
/// format is read and written without a handler.
pub open spec fn builtin_position(f: RobotFormat) -> Option<int> {
    match f {
        RobotFormat::Mjcf => Some(0),
        RobotFormat::Sdf => Some(1),
        RobotFormat::Urdf => Some(2),
        RobotFormat::IsaacUsd => Some(3),
        RobotFormat::Misa => None,
    }
}

/// The format whose handler takes a file: `.xml` is shared, and settled by contents.
pub open spec fn handled_format(ext: Seq<char>, content: Option<Seq<char>>) -> Option<RobotFormat> {
    if ext == "xml"@ {
        format_for_file(ext, content)
    } else {
        format_for(ext)
    }
}

/// The built-in registry agrees with detection: a file goes to the handler of the
/// format that its extension stands for, and an `.xml` file to that of the format
/// that its contents show, SDF or URDF, or else to that of MJCF.
pub proof fn law_builtin_pick(ext: Seq<char>, content: Option<Seq<char>>, pick: Option<int>)
    requires
        is_pick(builtin_handlers(), ext, content, pick),
    ensures
        pick == match handled_format(ext, content) {
            Some(f) => builtin_position(f),
            None => None,
        },
{
    reveal_extensions();
    let hs = builtin_handlers();
    reveal_with_fuel(claimants, 5);
    assert(hs.len() == 4);
    lemma_three(hs[1].extensions, "sdf"@, "world"@, "xml"@, ext);
    lemma_three(hs[2].extensions, "urdf"@, "xacro"@, "xml"@, ext);
    lemma_two(hs[0].extensions, "xml"@, "mjcf"@, ext);
    lemma_two(hs[3].extensions, "usda"@, "usd"@, ext);
    if ext == "xml"@ {
        let among = claimants(hs, ext, hs.len());
        assert(among =~= seq![0int, 1int, 2int]);
        let sniffed = |at: int| content is Some && first_sniffed(hs, among, content->0, at);
        assert(hs[0].marker == Some("<mujoco"@));
        assert(hs[1].marker == Some("<sdf"@));
        assert(hs[2].marker == Some("<robot"@));
        if content is Some {
            let c = content->0;
            if carries(c, hs[0].marker) {
                assert(sniffed(0));
            } else if carries(c, hs[1].marker) {
                assert(!carries(c, hs[among[0]].marker));
                assert(sniffed(1));
            } else if carries(c, hs[2].marker) {
                assert(!carries(c, hs[among[0]].marker));
                assert(!carries(c, hs[among[1]].marker));
                assert(sniffed(2));
            }
            assert forall|at: int| #[trigger] sniffed(at) implies carries(
                c,
                hs[among[at]].marker,
            ) && forall|j: int| 0 <= j < at ==> !carries(c, #[trigger] hs[among[j]].marker) by {}
            if exists|at: int| #[trigger] sniffed(at) && pick == Some(among[at]) {
                let at = choose|at: int| #[trigger] sniffed(at) && pick == Some(among[at]);
                assert(0 <= at < 3);
                assert(at > 0 ==> !carries(c, hs[among[0]].marker));
                assert(at > 1 ==> !carries(c, hs[among[1]].marker));
            }
        }
    }
}

proof fn lemma_two(exts: Seq<Seq<char>>, a: Seq<char>, b: Seq<char>, e: Seq<char>)
    requires
        exts == seq![a, b],
    ensures
        exts.contains(e) <==> (e == a || e == b),
{
    assert(exts[0] == a && exts[1] == b);
}

proof fn lemma_three(
    exts: Seq<Seq<char>>,
    a: Seq<char>,
    b: Seq<char>,
    c: Seq<char>,
    e: Seq<char>,
)
    requires
        exts == seq![a, b, c],
    ensures
        exts.contains(e) <==> (e == a || e == b || e == c),
{
    assert(exts[0] == a && exts[1] == b && exts[2] == c);
}

/// A handler that is picked claims the extension, and one is picked whenever any
/// claims it.
pub proof fn law_pick_claims_the_extension(
    handlers: Seq<HandlerView>,
    ext: Seq<char>,
    content: Option<Seq<char>>,
    pick: Option<int>,
)
    requires
        is_pick(handlers, ext, content, pick),
    ensures
        pick matches Some(i) ==> 0 <= i < handlers.len() && handlers[i].extensions.contains(ext),
        pick is None <==> forall|i: int|
            0 <= i < handlers.len() ==> !(#[trigger] handlers[i]).extensions.contains(ext),
{
    lemma_claimants(handlers, ext, handlers.len());
    let among = claimants(handlers, ext, handlers.len());
    if among.len() > 0 {
        assert(handlers[among[0]].extensions.contains(ext));
    }
}

proof fn lemma_claimants(handlers: Seq<HandlerView>, ext: Seq<char>, n: nat)
    requires
        n <= handlers.len(),
    ensures
        forall|k: int|
            0 <= k < claimants(handlers, ext, n).len() ==> {
                let i = #[trigger] claimants(handlers, ext, n)[k];
                0 <= i < n && handlers[i].extensions.contains(ext)
            },
        claimants(handlers, ext, n).len() == 0 ==> forall|i: int|
            0 <= i < n ==> !(#[trigger] handlers[i]).extensions.contains(ext),
    decreases n,
{
    if n > 0 {
        lemma_claimants(handlers, ext, (n - 1) as nat);
        let before = claimants(handlers, ext, (n - 1) as nat);
        let now = claimants(handlers, ext, n);
        assert forall|k: int| 0 <= k < now.len() implies {
            let i = #[trigger] now[k];
            0 <= i < n && handlers[i].extensions.contains(ext)
        } by {
            if k < before.len() {
                assert(now[k] == before[k]);
            }
        }
    }
}

/// Spells out the built-in extensions.
proof fn reveal_extensions()
    ensures
        "urdf"@ == seq!['u', 'r', 'd', 'f'],
        "xacro"@ == seq!['x', 'a', 'c', 'r', 'o'],
        "sdf"@ == seq!['s', 'd', 'f'],
        "world"@ == seq!['w', 'o', 'r', 'l', 'd'],
        "xml"@ == seq!['x', 'm', 'l'],
        "mjcf"@ == seq!['m', 'j', 'c', 'f'],
        "usda"@ == seq!['u', 's', 'd', 'a'],
        "usd"@ == seq!['u', 's', 'd'],
        "misa"@ == seq!['m', 'i', 's', 'a'],
        "urdf"@[0] == 'u' && "urdf"@[1] == 'r',
        "xacro"@[0] == 'x' && "xacro"@[1] == 'a',
        "sdf"@[0] == 's',
        "world"@[0] == 'w',
        "xml"@[0] == 'x' && "xml"@[1] == 'm',
        "mjcf"@[0] == 'm' && "mjcf"@[1] == 'j',
        "usda"@[0] == 'u' && "usda"@[1] == 's' && "usda"@.len() == 4,
        "usd"@[0] == 'u' && "usd"@[1] == 's' && "usd"@.len() == 3,
        "misa"@[0] == 'm' && "misa"@[1] == 'i',
{
    reveal_strlit("urdf");
    reveal_strlit("xacro");
    reveal_strlit("sdf");
    reveal_strlit("world");
    reveal_strlit("xml");
    reveal_strlit("mjcf");
    reveal_strlit("usda");
    reveal_strlit("usd");
    reveal_strlit("misa");
    assert("urdf"@ =~= seq!['u', 'r', 'd', 'f']);
    assert("xacro"@ =~= seq!['x', 'a', 'c', 'r', 'o']);
    assert("sdf"@ =~= seq!['s', 'd', 'f']);
    assert("world"@ =~= seq!['w', 'o', 'r', 'l', 'd']);
    assert("xml"@ =~= seq!['x', 'm', 'l']);
    assert("mjcf"@ =~= seq!['m', 'j', 'c', 'f']);
    assert("usda"@ =~= seq!['u', 's', 'd', 'a']);
    assert("usd"@ =~= seq!['u', 's', 'd']);
    assert("misa"@ =~= seq!['m', 'i', 's', 'a']);
}

/// What features a particular [`FormatHandler`] can express on round-trip.
///
/// The list is intentionally coarse: fine-grained details are the handler's
/// responsibility.
#[derive(Clone, Copy, Debug, PartialEq, Eq, Structural)]
pub struct FormatCapabilities {
    pub mimic: bool,
    pub sensors: bool,
    pub collision_pairs: bool,
    pub closed_loops: bool,
    pub actuators: bool,
}

impl Default for FormatCapabilities {
    fn default() -> (r: FormatCapabilities)
        ensures
            r == (FormatCapabilities {
                mimic: false,
                sensors: false,
                collision_pairs: false,
                closed_loops: false,
                actuators: false,
            }),
    {
        FormatCapabilities {
            mimic: false,
            sensors: false,
            collision_pairs: false,
            closed_loops: false,
            actuators: false,
        }
    }
}

/// The text that marks a file of some format, where the format has one.
pub open spec fn marker_view(marker: Option<&str>) -> Option<Seq<char>> {
    match marker {
        Some(m) => Some(m@),
        None => None,
    }
}

/// A file's contents carry the marker.
pub open spec fn carries(content: Seq<char>, marker: Option<Seq<char>>) -> bool {
    match marker {
        Some(m) => crate::text::is_infix(content, m),
        None => false,
    }
}

/// Plug-in interface for a single robot description format.
///
/// Adding a new format means writing one impl of this trait and registering it
/// on the [`FormatRegistry`].
pub trait FormatHandler {
    /// The handler's name.
    spec fn name_of(&self) -> Seq<char>;

    /// The extensions that the handler claims.
    spec fn extensions_of(&self) -> Seq<Seq<char>>;

    /// The handler's capability matrix.
    spec fn capabilities_of(&self) -> FormatCapabilities;

    /// The text by which the handler knows its files.
    spec fn marker_of(&self) -> Option<Seq<char>>;

    /// Display name (e.g. "URDF").
    fn name(&self) -> (r: &str)
        ensures
            r@ == self.name_of(),
    ;

    /// File extensions this handler claims (lowercase, without the dot).
    /// First entry is the canonical one used on export.
    fn extensions(&self) -> (r: Vec<String>)
        ensures
            crate::text::views(r@) == self.extensions_of(),
    ;

    /// Capability matrix.
    fn capabilities(&self) -> (r: FormatCapabilities)
        ensures
            r == self.capabilities_of(),
    ;

    /// The text that tells this format apart where formats share an extension
    /// (e.g. `.xml`). Formats that cannot be told apart by contents have none.
    fn content_marker(&self) -> (r: Option<&'static str>)
        ensures
            marker_view(r) == self.marker_of(),
    ;

    /// Whether the contents of a file are of this format.
    fn matches_content(&self, content: &str) -> (r: bool)
        ensures
            r == carries(content@, self.marker_of()),
    {
        match self.content_marker() {
            Some(m) => contains(content, m),
            None => false,
        }
    }
}

/// Three strings as a vector.
fn three(a: &str, b: &str, c: &str) -> (r: Vec<String>)
    ensures
        crate::text::views(r@) == seq![a@, b@, c@],
{
    let mut r: Vec<String> = Vec::new();
    r.push(String::from_str(a));
    r.push(String::from_str(b));
    r.push(String::from_str(c));
    proof {
        assert(crate::text::views(r@) =~= seq![a@, b@, c@]);
    }
    r
}

/// Two strings as a vector.
fn two(a: &str, b: &str) -> (r: Vec<String>)
    ensures
        crate::text::views(r@) == seq![a@, b@],
{
    let mut r: Vec<String> = Vec::new();
    r.push(String::from_str(a));
    r.push(String::from_str(b));
    proof {
        assert(crate::text::views(r@) =~= seq![a@, b@]);
    }
    r
}

/// URDF (.urdf, .xacro, and .xml by contents). Tree-only; no native sensors / collision pairs.
pub struct UrdfHandler;

impl FormatHandler for UrdfHandler {
    open spec fn name_of(&self) -> Seq<char> {
        "URDF"@
    }

    open spec fn extensions_of(&self) -> Seq<Seq<char>> {
        seq!["urdf"@, "xacro"@, "xml"@]
    }

    open spec fn capabilities_of(&self) -> FormatCapabilities {
        FormatCapabilities {
            mimic: true,
            sensors: false,
            collision_pairs: false,
            closed_loops: false,
            actuators: false,
        }
    }

    open spec fn marker_of(&self) -> Option<Seq<char>> {
        Some("<robot"@)
    }

    fn name(&self) -> &str {
        "URDF"
    }

    fn extensions(&self) -> Vec<String> {
        three("urdf", "xacro", "xml")
    }

    fn capabilities(&self) -> FormatCapabilities {
        FormatCapabilities {
            mimic: true,
            sensors: false,
            collision_pairs: false,
            closed_loops: false,
            actuators: false,
        }
    }

    fn content_marker(&self) -> Option<&'static str> {
        Some("<robot")
    }
}

/// SDF (.sdf, .world, and .xml by contents). Native sensors + bitmask-based collision filter.
pub struct SdfHandler;

impl FormatHandler for SdfHandler {
    open spec fn name_of(&self) -> Seq<char> {
        "SDF"@
    }

    open spec fn extensions_of(&self) -> Seq<Seq<char>> {
        seq!["sdf"@, "world"@, "xml"@]
    }

    open spec fn capabilities_of(&self) -> FormatCapabilities {
        FormatCapabilities {
            mimic: true,
            sensors: true,
            collision_pairs: true,
            closed_loops: true,
            actuators: true,
        }
    }

    open spec fn marker_of(&self) -> Option<Seq<char>> {
        Some("<sdf"@)
    }

    fn name(&self) -> &str {
        "SDF"
    }

    fn extensions(&self) -> Vec<String> {
        three("sdf", "world", "xml")
    }

    fn capabilities(&self) -> FormatCapabilities {
        FormatCapabilities {
            mimic: true,
            sensors: true,
            collision_pairs: true,
            closed_loops: true,
            actuators: true,
        }
    }

    fn content_marker(&self) -> Option<&'static str> {
        Some("<sdf")
    }
}

/// MJCF (.xml, .mjcf). Rich sensors + tendons; no native mimic but
/// `<equality><joint>` provides linear-coupling equivalent.
pub struct MjcfHandler;

impl FormatHandler for MjcfHandler {
    open spec fn name_of(&self) -> Seq<char> {
        "MJCF"@
    }

    open spec fn extensions_of(&self) -> Seq<Seq<char>> {
        seq!["xml"@, "mjcf"@]
    }

    open spec fn capabilities_of(&self) -> FormatCapabilities {
        FormatCapabilities {
            mimic: true,
            sensors: true,
            collision_pairs: true,
            closed_loops: true,
            actuators: true,
        }
    }

    open spec fn marker_of(&self) -> Option<Seq<char>> {
        Some("<mujoco"@)
    }

    fn name(&self) -> &str {
        "MJCF"
    }

    fn extensions(&self) -> Vec<String> {
        two("xml", "mjcf")
    }

    fn capabilities(&self) -> FormatCapabilities {
        FormatCapabilities {
            mimic: true,
            sensors: true,
            collision_pairs: true,
            closed_loops: true,
            actuators: true,
        }
    }

    fn content_marker(&self) -> Option<&'static str> {
        Some("<mujoco")
    }
}

/// USD ASCII (.usda, .usd). Joint Drives + filtered pairs; sensors only via
/// Isaac extensions.
pub struct UsdHandler;

impl FormatHandler for UsdHandler {
    open spec fn name_of(&self) -> Seq<char> {
        "Isaac USD"@
    }

    open spec fn extensions_of(&self) -> Seq<Seq<char>> {
        seq!["usda"@, "usd"@]
    }

    open spec fn capabilities_of(&self) -> FormatCapabilities {
        FormatCapabilities {
            mimic: false,
            sensors: false,
            collision_pairs: true,
            closed_loops: true,
            actuators: true,
        }
    }

    open spec fn marker_of(&self) -> Option<Seq<char>> {
        None
    }

    fn name(&self) -> &str {
        "Isaac USD"
    }

    fn extensions(&self) -> Vec<String> {
        two("usda", "usd")
    }

    fn capabilities(&self) -> FormatCapabilities {
        FormatCapabilities {
            mimic: false,
            sensors: false,
            collision_pairs: true,
            closed_loops: true,
            actuators: true,
        }
    }

    fn content_marker(&self) -> Option<&'static str> {
        None
    }
}

/// What the registry keeps of a registered handler.
pub struct HandlerInfo {
    pub name: String,
    pub extensions: Vec<String>,
    pub capabilities: FormatCapabilities,
    pub content_marker: Option<&'static str>,
}

/// A registered handler, as a value of contracts.
pub struct HandlerView {
    pub name: Seq<char>,
    pub extensions: Seq<Seq<char>>,
    pub capabilities: FormatCapabilities,
    pub marker: Option<Seq<char>>,
}

impl View for HandlerInfo {
    type V = HandlerView;

    open spec fn view(&self) -> HandlerView {
        HandlerView {
            name: self.name@,
            extensions: crate::text::views(self.extensions@),
            capabilities: self.capabilities,
            marker: marker_view(self.content_marker),
        }
    }
}

/// The view of a handler before it is registered.
pub open spec fn handler_view<H: FormatHandler>(h: &H) -> HandlerView {
    HandlerView {
        name: h.name_of(),
        extensions: h.extensions_of(),
        capabilities: h.capabilities_of(),
        marker: h.marker_of(),
    }
}

/// Positions, in order, of the handlers among the first `n` that claim `ext`.
pub open spec fn claimants(handlers: Seq<HandlerView>, ext: Seq<char>, n: nat) -> Seq<int>
    decreases n,
{
    if n == 0 || n > handlers.len() {
        Seq::empty()
    } else if handlers[n - 1].extensions.contains(ext) {
        claimants(handlers, ext, (n - 1) as nat).push(n - 1)
    } else {
        claimants(handlers, ext, (n - 1) as nat)
    }
}

/// `at` is the first of `among` whose handler knows `content` as its own.
pub open spec fn first_sniffed(
    handlers: Seq<HandlerView>,
    among: Seq<int>,
    content: Seq<char>,
    at: int,
) -> bool {
    &&& 0 <= at < among.len()
    &&& carries(content, handlers[among[at]].marker)
    &&& forall|j: int| 0 <= j < at ==> !carries(content, #[trigger] handlers[among[j]].marker)
}

/// `pick` is the handler for a file with lower-case extension `ext`: the only
/// one that claims the extension or, where several do, the first of them that
/// knows the contents, or else the first of them.
pub open spec fn is_pick(
    handlers: Seq<HandlerView>,
    ext: Seq<char>,
    content: Option<Seq<char>>,
    pick: Option<int>,
) -> bool {
    let among = claimants(handlers, ext, handlers.len());
    let sniffed = |at: int|
        content is Some && first_sniffed(handlers, among, content->0, at);
    if among.len() == 0 {
        pick is None
    } else if among.len() == 1 {
        pick == Some(among[0])
    } else {
        ||| exists|at: int| #[trigger] sniffed(at) && pick == Some(among[at])
        ||| (forall|at: int| !#[trigger] sniffed(at)) && pick == Some(among[0])
    }
}

/// Registry of [`FormatHandler`]s.
///
/// `default_registry()` returns one populated with the built-in URDF / SDF /
/// MJCF / USD handlers; downstream consumers can `register()` more.
pub struct FormatRegistry {
    handlers: Vec<HandlerInfo>,
}

impl View for FormatRegistry {
    type V = Seq<HandlerView>;

    closed spec fn view(&self) -> Seq<HandlerView> {
        self.handlers@.map_values(|h: HandlerInfo| h@)
    }
}

/// The built-in handlers, in order. Three of them claim `.xml`. Of the claimants the
/// first has a file whose contents show nothing else, and such a file is detected as
/// MJCF: so MJCF comes first. Among the others the order makes no difference, as no two
/// of them share a marker or another extension.
pub open spec fn builtin_handlers() -> Seq<HandlerView> {
    seq![
        handler_view(&MjcfHandler),
        handler_view(&SdfHandler),
        handler_view(&UrdfHandler),
        handler_view(&UsdHandler),
    ]
}

/// The position of a handler as a number of contracts.
pub open spec fn position(p: Option<usize>) -> Option<int> {
    match p {
        Some(i) => Some(i as int),
        None => None,
    }
}

/// What is said of a file that no handler claims; `shown_path` is the path as
/// displayed.
pub open spec fn no_handler(shown_path: Seq<char>) -> Seq<char> {
    "No handler for "@ + shown_path
}

/// The extension under which a path is looked up: the empty one where it has none.
pub open spec fn lookup(ext: Option<Seq<char>>) -> Seq<char> {
    match ext {
        Some(e) => lowercase(e),
        None => Seq::empty(),
    }
}

impl FormatRegistry {
    pub fn new() -> (r: FormatRegistry)
        ensures
            r@ == Seq::<HandlerView>::empty(),
    {
        let r = FormatRegistry { handlers: Vec::new() };
        proof {
            assert(r@ =~= Seq::<HandlerView>::empty());
        }
        r
    }

    /// Built-in registry covering URDF / SDF / MJCF / USD. The order is that of
    /// `builtin_handlers`: MJCF is the default among those that claim `.xml`.
    pub fn default_registry() -> (r: FormatRegistry)
        ensures
            r@ == builtin_handlers(),
    {
        let mut r = FormatRegistry::new();
        r.register(&MjcfHandler);
        r.register(&SdfHandler);
        r.register(&UrdfHandler);
        r.register(&UsdHandler);
        proof {
            assert(r@ =~= builtin_handlers());
        }
        r
    }

    /// Adds a handler behind those that are there.
    pub fn register<H: FormatHandler>(&mut self, handler: &H)
        ensures
            final(self)@ == old(self)@.push(handler_view(handler)),
    {
        self.register_info(
            HandlerInfo {
                name: handler.name().to_owned(),
                extensions: handler.extensions(),
                capabilities: handler.capabilities(),
                content_marker: handler.content_marker(),
            },
        );
    }

    /// Adds a handler, described by its entry, behind those that are there.
    pub fn register_info(&mut self, info: HandlerInfo)
        ensures
            final(self)@ == old(self)@.push(info@),
    {
        self.handlers.push(info);
        proof {
            assert(final(self)@ =~= old(self)@.push(info@));
        }
    }

    /// The registered handlers, in order. The order decides among handlers that claim the
    /// same extension where a file's contents do not: the first of them has the file. The
    /// built-in ones start with MJCF, which is what an `.xml` file is detected as then.
    pub fn handlers(&self) -> (r: &Vec<HandlerInfo>)
        ensures
            r@.map_values(|h: HandlerInfo| h@) == self@,
    {
        &self.handlers
    }

    /// Whether the handler at position `i` claims a lower-case extension.
    fn claims(&self, i: usize, ext: &str) -> (r: bool)
        requires
            i < self@.len(),
        ensures
            r == self@[i as int].extensions.contains(ext@),
    {
        let exts: &Vec<String> = &self.handlers[i].extensions;
        let ghost all = crate::text::views(exts@);
        let mut k: usize = 0;
        while k < exts.len()
            invariant
                k <= exts.len(),
                i < self@.len(),
                all == self@[i as int].extensions,
                all == crate::text::views(exts@),
                forall|j: int| 0 <= j < k ==> #[trigger] all[j] != ext@,
            decreases exts.len() - k,
        {
            if same(exts[k].as_str(), ext) {
                proof {
                    assert(all[k as int] == ext@);
                }
                return true;
            }
            k += 1;
        }
        false
    }

    /// Pick a handler for a file by its lower-case extension and, where
    /// several handlers claim it (e.g. `.xml`), by the file's contents (`None`
    /// if they could not be read). Returns the handler's position.
    pub fn pick(&self, ext: &str, content: Option<&str>) -> (r: Option<usize>)
        ensures
            is_pick(
                self@,
                ext@,
                marker_view(content),
                match r {
                    Some(i) => Some(i as int),
                    None => None,
                },
            ),
            r matches Some(i) ==> i < self@.len(),
    {
        let mut by_ext: Vec<usize> = Vec::new();
        let mut i: usize = 0;
        while i < self.handlers.len()
            invariant
                i <= self.handlers.len(),
                self.handlers.len() == self@.len(),
                by_ext@.map_values(|x: usize| x as int) == claimants(self@, ext@, i as nat),
                forall|j: int| 0 <= j < by_ext.len() ==> #[trigger] by_ext@[j] < i,
            decreases self.handlers.len() - i,
        {
            let ghost before = by_ext@;
            if self.claims(i, ext) {
                by_ext.push(i);
                proof {
                    assert(by_ext@.map_values(|x: usize| x as int)
                        =~= before.map_values(|x: usize| x as int).push(i as int));
                }
            }
            i += 1;
        }
        let ghost among = claimants(self@, ext@, self@.len());
        proof {
            assert(among == by_ext@.map_values(|x: usize| x as int));
            assert(forall|j: int| 0 <= j < among.len() ==> among[j] == #[trigger] by_ext@[j]);
        }
        if by_ext.len() == 0 {
            return None;
        }
        if by_ext.len() == 1 {
            return Some(by_ext[0]);
        }
        let ghost sniffed = |at: int|
            marker_view(content) is Some && first_sniffed(self@, among, marker_view(content)->0, at);
        if let Some(c) = content {
            let mut k: usize = 0;
            while k < by_ext.len()
                invariant
                    k <= by_ext.len(),
                    self.handlers.len() == self@.len(),
                    among == by_ext@.map_values(|x: usize| x as int),
                    forall|j: int| 0 <= j < by_ext.len() ==> #[trigger] by_ext@[j] < self@.len(),
                    forall|j: int|
                        0 <= j < k ==> !carries(c@, #[trigger] self@[among[j]].marker),
                    among == claimants(self@, ext@, self@.len()),
                    among.len() > 1,
                    content == Some(c),
                    sniffed == (|at: int|
                        marker_view(content) is Some && first_sniffed(
                            self@,
                            among,
                            marker_view(content)->0,
                            at,
                        )),
                decreases by_ext.len() - k,
            {
                let h: &HandlerInfo = &self.handlers[by_ext[k]];
                let known = match h.content_marker {
                    Some(m) => contains(c, m),
                    None => false,
                };
                proof {
                    assert(among[k as int] == by_ext@[k as int]);
                    assert(self@[among[k as int]].marker == marker_view(h.content_marker));
                }
                if known {
                    proof {
                        assert(sniffed(k as int));
                    }
                    return Some(by_ext[k]);
                }
                k += 1;
            }
        }
        proof {
            assert(forall|at: int| !#[trigger] sniffed(at));
        }
        Some(by_ext[0])
    }

    /// Pick a handler by file path: by extension first, then by contents where
    /// the extension is shared. A path without an extension is looked up under
    /// the empty extension.
    pub fn handler_for(&self, path: &str, content: Option<&str>) -> (r: Option<usize>)
        ensures
            forall|ext: Option<Seq<char>>| #[trigger]
                extension_is(path@, ext) ==> is_pick(
                    self@,
                    lookup(ext),
                    marker_view(content),
                    position(r),
                ),
            r matches Some(i) ==> i < self@.len(),
            ascii_is_lowered(path@),
    {
        match lowered_extension(path) {
            Some(ext) => self.pick(ext.as_str(), content),
            None => {
                let none: String = String::new();
                proof {
                    assert(none@ =~= Seq::<char>::empty());
                }
                self.pick(none.as_str(), content)
            },
        }
    }

    /// Reads a file with the handler that is picked for it. `read` is asked once, to
    /// read the file with the handler at a position, and what it returns is returned;
    /// it is not asked where no handler claims the file.
    pub fn import<M, F: FnOnce(usize) -> Result<M, String>>(
        &self,
        path: &str,
        content: Option<&str>,
        shown_path: &str,
        read: F,
    ) -> (r: Result<M, String>)
        requires
            forall|i: usize| i < self@.len() ==> #[trigger] call_requires(read, (i,)),
        ensures
            forall|ext: Option<Seq<char>>| #[trigger]
                extension_is(path@, ext) ==> exists|p: Option<usize>|
                    {
                        &&& #[trigger] is_pick(
                            self@,
                            lookup(ext),
                            marker_view(content),
                            position(p),
                        )
                        &&& match p {
                            Some(i) => call_ensures(read, (i,), r),
                            None => r is Err && r->Err_0@ == no_handler(shown_path@),
                        }
                    },
            ascii_is_lowered(path@),
    {
        let p: Option<usize> = self.handler_for(path, content);
        self.handled_by(p, shown_path, read)
    }

    /// Writes a file with the handler that is picked for it, as [`Self::import`] reads
    /// one. Where the file exists already, `content` is what it holds.
    pub fn export<F: FnOnce(usize) -> Result<(), String>>(
        &self,
        path: &str,
        content: Option<&str>,
        shown_path: &str,
        write: F,
    ) -> (r: Result<(), String>)
        requires
            forall|i: usize| i < self@.len() ==> #[trigger] call_requires(write, (i,)),
        ensures
            forall|ext: Option<Seq<char>>| #[trigger]
                extension_is(path@, ext) ==> exists|p: Option<usize>|
                    {
                        &&& #[trigger] is_pick(
                            self@,
                            lookup(ext),
                            marker_view(content),
                            position(p),
                        )
                        &&& match p {
                            Some(i) => call_ensures(write, (i,), r),
                            None => r is Err && r->Err_0@ == no_handler(shown_path@),
                        }
                    },
            ascii_is_lowered(path@),
    {
        let p: Option<usize> = self.handler_for(path, content);
        self.handled_by(p, shown_path, write)
    }

    /// What the handler at a position makes of a file, or that there is none.
    pub fn handled_by<M, F: FnOnce(usize) -> Result<M, String>>(
        &self,
        p: Option<usize>,
        shown_path: &str,
        ask: F,
    ) -> (r: Result<M, String>)
        requires
            p matches Some(i) ==> call_requires(ask, (i,)),
        ensures
            match p {
                Some(i) => call_ensures(ask, (i,), r),
                None => r is Err && r->Err_0@ == no_handler(shown_path@),
            },
    {
        match p {
            Some(i) => ask(i),
            None => {
                let mut text: String = String::from_str("No handler for ");
                text.append(shown_path);
                Err(text)
            },
        }
    }
}

impl Default for FormatRegistry {
    fn default() -> (r: FormatRegistry)
        ensures
            r@ == builtin_handlers(),
    {
        FormatRegistry::default_registry()
    }
}

/// Each ending names one format, and any other none.
pub proof fn law_endings_of_formats(ext: Seq<char>)
    ensures
        format_for(ext) == Some(RobotFormat::Urdf) <==> ext == "urdf"@ || ext == "xacro"@,
        format_for(ext) == Some(RobotFormat::Sdf) <==> ext == "sdf"@ || ext == "world"@,
        format_for(ext) == Some(RobotFormat::Mjcf) <==> ext == "xml"@ || ext == "mjcf"@,
        format_for(ext) == Some(RobotFormat::IsaacUsd) <==> ext == "usda"@ || ext == "usd"@,
        format_for(ext) == Some(RobotFormat::Misa) <==> ext == "misa"@,
{
    reveal_strlit("urdf");
    reveal_strlit("xacro");
    reveal_strlit("sdf");
    reveal_strlit("world");
    reveal_strlit("xml");
    reveal_strlit("mjcf");
    reveal_strlit("usda");
    reveal_strlit("usd");
    reveal_strlit("misa");
    assert("urdf"@[0] == 'u' && "urdf"@[1] == 'r' && "xacro"@[0] == 'x' && "xacro"@[1] == 'a');
    assert("sdf"@[0] == 's' && "world"@[0] == 'w' && "xml"@[0] == 'x' && "xml"@[1] == 'm');
    assert("mjcf"@[0] == 'm' && "mjcf"@[1] == 'j' && "usda"@[0] == 'u' && "usda"@[1] == 's');
    assert("usd"@[0] == 'u' && "usd"@[1] == 's' && "misa"@[0] == 'm' && "misa"@[1] == 'i');
}

/// A shared ending is told apart by what the file holds: the first of three marks decides, and
/// without any it stays with the ending.
pub proof fn law_marks_tell_formats_apart(ext: Seq<char>, c: Seq<char>)
    requires
        ext == "xml"@ || ext == "mjcf"@,
    ensures
        crate::text::is_infix(c, "<mujoco"@) ==> format_for_file(ext, Some(c)) == Some(
            RobotFormat::Mjcf,
        ),
        !crate::text::is_infix(c, "<mujoco"@) && crate::text::is_infix(c, "<sdf"@)
            ==> format_for_file(ext, Some(c)) == Some(RobotFormat::Sdf),
        !crate::text::is_infix(c, "<mujoco"@) && !crate::text::is_infix(c, "<sdf"@)
            && crate::text::is_infix(c, "<robot"@) ==> format_for_file(ext, Some(c)) == Some(
            RobotFormat::Urdf,
        ),
        !crate::text::is_infix(c, "<mujoco"@) && !crate::text::is_infix(c, "<sdf"@)
            && !crate::text::is_infix(c, "<robot"@) ==> format_for_file(ext, Some(c)) == Some(
            RobotFormat::Mjcf,
        ),
{
    law_endings_of_formats(ext);
}

/// What follows the last of a character holds none of it and is the whole rest behind it.
pub proof fn law_rest_behind_the_last(s: Seq<char>, c: char)
    ensures
        after_last(s, c).len() <= s.len(),
        s.skip(s.len() - after_last(s, c).len()) == after_last(s, c),
        !after_last(s, c).contains(c),
        after_last(s, c).len() < s.len() ==> s[s.len() - after_last(s, c).len() - 1] == c,
    decreases s.len(),
{
    if s.len() > 0 && s.last() != c {
        let rest = s.drop_last();
        law_rest_behind_the_last(rest, c);
        let (t, u) = (after_last(rest, c), after_last(s, c));
        assert(u == t.push(s.last()));
        assert forall|i: int| 0 <= i < u.len() implies s[s.len() - u.len() + i] == u[i] && u[i]
            != c by {
            if i < t.len() {
                assert(rest.skip(rest.len() - t.len())[i] == t[i]);
                assert(t.contains(t[i]));
            }
        }
        assert(s.skip(s.len() - u.len()) =~= u);
    } else {
        assert(s.skip(s.len() as int) =~= after_last(s, c));
    }
}

/// A name is its stem, a dot and its extension, where it has one: the extension holds no dot
/// and the stem is not empty. A name without an extension is its own stem.
pub proof fn law_name_is_stem_and_extension(name: Seq<char>)
    ensures
        match extension_of_name(name) {
            Some(ext) => {
                &&& stem_of_name(name).len() > 0
                &&& !ext.contains('.')
                &&& stem_of_name(name) + seq!['.'] + ext == name
            },
            None => {
                &&& stem_of_name(name) == name
                &&& forall|i: int| 0 < i < name.len() ==> #[trigger] name[i] != '.'
            },
        },
{
    law_rest_behind_the_last(name, '.');
    let ext = after_last(name, '.');
    if ext.len() + 1 < name.len() {
        assert(name.skip(name.len() - ext.len()) == ext);
        assert(stem_of_name(name) + seq!['.'] + ext =~= name) by {
            assert forall|i: int| 0 <= i < ext.len() implies name[name.len() - ext.len() + i]
                == ext[i] by {
                assert(name.skip(name.len() - ext.len())[i] == ext[i]);
            }
        }
    } else {
        assert forall|i: int| 0 < i < name.len() implies #[trigger] name[i] != '.' by {
            let k = i - (name.len() - ext.len());
            assert(name.skip(name.len() - ext.len())[k] == ext[k]);
            assert(ext.contains(ext[k]));
        }
    }
}

/// A file's name is what follows the last slash of its path, and a slash or a dot at the end
/// changes nothing.
pub proof fn law_file_name_ends_the_path(dir: Seq<char>, name: Seq<char>)
    requires
        name.len() > 0,
        !name.contains('/'),
        name != seq!['.'],
        name != seq!['.', '.'],
    ensures
        file_name(name) == Some(name),
        file_name(dir + seq!['/'] + name) == Some(name),
        file_name((dir + seq!['/'] + name).push('/')) == Some(name),
        file_name(seq!['.', '.']) is None,
{
    lemma_after_slash(Seq::empty(), name);
    let path = dir + seq!['/'] + name;
    assert(Seq::<char>::empty() + name =~= name);
    lemma_after_slash(dir + seq!['/'], name);
    assert(path.push('/').drop_last() =~= path);
    assert(!seq!['.', '.'].contains('/'));
    lemma_after_slash(Seq::empty(), seq!['.', '.']);
    assert(Seq::<char>::empty() + seq!['.', '.'] =~= seq!['.', '.']);
    assert(seq!['.', '.'].len() != seq!['.'].len());
}

proof fn lemma_after_slash(before: Seq<char>, name: Seq<char>)
    requires
        !name.contains('/'),
        before.len() == 0 || before.last() == '/',
    ensures
        after_last(before + name, '/') == name,
    decreases name.len(),
{
    if name.len() > 0 {
        let rest = name.drop_last();
        assert forall|i: int| 0 <= i < rest.len() implies rest[i] != '/' by {
            assert(name.contains(name[i]));
        }
        lemma_after_slash(before, rest);
        assert((before + name).drop_last() =~= before + rest);
        assert((before + name).last() == name.last());
        assert(name.contains(name.last()));
        assert(rest.push(name.last()) =~= name);
    } else {
        assert(before + name =~= before);
    }
}

/// Every format has its own label and ending.
pub proof fn law_labels_and_endings()
    ensures
        RobotFormat::Urdf.label_of() == "URDF"@ && RobotFormat::Urdf.extension_of() == "urdf"@,
        RobotFormat::Sdf.label_of() == "SDF"@ && RobotFormat::Sdf.extension_of() == "sdf"@,
        RobotFormat::Mjcf.label_of() == "MJCF"@ && RobotFormat::Mjcf.extension_of() == "xml"@,
        RobotFormat::IsaacUsd.label_of() == "Isaac (USD ASCII)"@
            && RobotFormat::IsaacUsd.extension_of() == "usda"@,
        RobotFormat::Misa.label_of() == "Misa"@ && RobotFormat::Misa.extension_of() == "misa"@,
{
}

/// A content test goes by its mark alone: with one the content holds it, and without one no
/// content passes.
pub proof fn law_content_is_told_by_its_mark(content: Seq<char>, mark: Seq<char>)
    ensures
        carries(content, Some(mark)) <==> crate::text::is_infix(content, mark),
        !carries(content, None),
{
}

/// The handlers that claim an ending are listed, each once and in the order of registration.
pub proof fn law_claimants_are_listed(handlers: Seq<HandlerView>, ext: Seq<char>, n: nat)
    requires
        n <= handlers.len(),
    ensures
        ({
            let all = claimants(handlers, ext, n);
            &&& forall|k: int|
                0 <= k < all.len() ==> 0 <= #[trigger] all[k] < n
                    && handlers[all[k]].extensions.contains(ext)
            &&& forall|i: int, j: int| 0 <= i < j < all.len() ==> #[trigger] all[i] < #[trigger] all[j]
            &&& forall|i: int|
                0 <= i < n && (#[trigger] handlers[i]).extensions.contains(ext) ==> exists|k: int|
                    0 <= k < all.len() && #[trigger] all[k] == i
        }),
    decreases n,
{
    if n > 0 {
        law_claimants_are_listed(handlers, ext, (n - 1) as nat);
        let before = claimants(handlers, ext, (n - 1) as nat);
        let all = claimants(handlers, ext, n);
        assert forall|i: int|
            0 <= i < n && (#[trigger] handlers[i]).extensions.contains(ext) implies exists|k: int|
            0 <= k < all.len() && #[trigger] all[k] == i by {
            if i < n - 1 {
                let k = choose|k: int| 0 <= k < before.len() && #[trigger] before[k] == i;
                assert(all[k] == before[k]);
            } else {
                assert(all[all.len() - 1] == i);
            }
        }
    }
}

/// Of two handlers that claim an ending, in their order, the one whose mark the content holds is
/// picked, and the earlier one where it holds both marks or neither.
pub proof fn law_mark_decides_between_claimants(
    handlers: Seq<HandlerView>,
    ext: Seq<char>,
    content: Seq<char>,
    pick: Option<int>,
    a: int,
    b: int,
)
    requires
        claimants(handlers, ext, handlers.len()) == seq![a, b],
        is_pick(handlers, ext, Some(content), pick),
    ensures
        carries(content, handlers[b].marker) && !carries(content, handlers[a].marker) ==> pick
            == Some(b),
        carries(content, handlers[a].marker) || !carries(content, handlers[b].marker) ==> pick
            == Some(a),
{
    let among = claimants(handlers, ext, handlers.len());
    let sniffed = |at: int|
        Some(content) is Some && first_sniffed(handlers, among, Some(content)->0, at);
    assert(among[0] == a && among[1] == b);
    assert(sniffed(0) <==> carries(content, handlers[a].marker));
    assert(sniffed(1) <==> carries(content, handlers[b].marker) && !carries(
        content,
        handlers[a].marker,
    )) by {
        assert(handlers[among[0]].marker == handlers[a].marker);
    }
}

/// What the handlers claim and can hold: all but one keep joints that follow others, two keep
/// everything, and each but one knows its files by a mark of its own.
pub proof fn law_handlers_claim()
    ensures
        UrdfHandler.name_of() == "URDF"@ && SdfHandler.name_of() == "SDF"@
            && MjcfHandler.name_of() == "MJCF"@ && UsdHandler.name_of() == "Isaac USD"@,
        UrdfHandler.extensions_of() == seq!["urdf"@, "xacro"@, "xml"@],
        SdfHandler.extensions_of() == seq!["sdf"@, "world"@, "xml"@],
        MjcfHandler.extensions_of() == seq!["xml"@, "mjcf"@],
        UsdHandler.extensions_of() == seq!["usda"@, "usd"@],
        UrdfHandler.marker_of() == Some("<robot"@),
        SdfHandler.marker_of() == Some("<sdf"@),
        MjcfHandler.marker_of() == Some("<mujoco"@),
        UsdHandler.marker_of() is None,
        ({
            let (u, s, m, i) = (
                UrdfHandler.capabilities_of(),
                SdfHandler.capabilities_of(),
                MjcfHandler.capabilities_of(),
                UsdHandler.capabilities_of(),
            );
            &&& u.mimic && s.mimic && m.mimic && !i.mimic
            &&& !u.sensors && s.sensors && m.sensors && !i.sensors
            &&& !u.collision_pairs && s.collision_pairs && m.collision_pairs && i.collision_pairs
            &&& !u.closed_loops && s.closed_loops && m.closed_loops && i.closed_loops
            &&& !u.actuators && s.actuators && m.actuators && i.actuators
        }),
{
}

/// A path without an extension is looked up as the empty one, and one with it by its lower case.
pub proof fn law_lookups(ext: Seq<char>, content: Option<Seq<char>>, path: Seq<char>)
    ensures
        lookup(None).len() == 0,
        lookup(Some(ext)) == lowercase(ext),
        format_by_extension(None) is None,
        format_by_extension(Some(ext)) == format_for(lowercase(ext)),
        format_by_file(None, content) is None,
        format_by_file(Some(ext), content) == format_for_file(lowercase(ext), content),
        format_by_file(Some(ext), None) == format_by_extension(Some(ext)),
        no_handler(path) == "No handler for "@ + path,
{
}

} // verus!
