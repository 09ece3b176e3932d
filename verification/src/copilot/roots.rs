//! Where Copilot's sessions are: the roots to scan and the files below them.
use crate::copilot::CopilotConnector;
use crate::disk;
use crate::disk::{Disk, DiskView, FileView};
use crate::order;
use crate::paths;
use crate::paths::FilePath;
use crate::scan;
use crate::scan::{
    ContextView, DiscoveredSourceFile, DiscoveredSourceRole, RootView, ScanContext,
    ScanRoot, SourceView, UserDirs, UserView,
};
use crate::text;
use vstd::prelude::*;

verus! {

/// The names of a path in lower case.
pub open spec fn lowered_parts(path: Seq<Seq<char>>) -> Seq<Seq<char>> {
    path.map_values(|part: Seq<char>| text::lowered(part))
}

/// Whether two names stand one behind the other.
pub open spec fn has_pair(parts: Seq<Seq<char>>, first: Seq<char>, second: Seq<char>) -> bool {
    exists|i: int| 0 <= i < parts.len() - 1 && #[trigger] parts[i] == first && parts[i + 1] == second
}

/// Whether a path, in lower case, leads into the storage of Copilot Chat or of
/// the Copilot CLI.
pub open spec fn copilot_parts(parts: Seq<Seq<char>>) -> bool {
    ||| paths::has_part(parts, "github.copilot-chat"@)
    ||| paths::has_part(parts, "copilot-chat"@)
    ||| paths::has_part(parts, "gh-copilot"@)
    ||| has_pair(parts, ".copilot"@, "session-state"@)
    ||| has_pair(parts, ".copilot"@, "history-session-state"@)
    ||| has_pair(parts, "gh"@, "copilot"@)
}

/// Whether a path leads into the storage of Copilot Chat or of the Copilot CLI.
pub open spec fn copilot_look(path: Seq<Seq<char>>) -> bool {
    copilot_parts(lowered_parts(path))
}

/// Whether a path, in lower case, leads into the chat storage of VS Code.
pub open spec fn vscode_parts(parts: Seq<Seq<char>>) -> bool {
    ||| paths::has_part(parts, "workspacestorage"@)
    ||| paths::has_part(parts, "chatsessions"@)
    ||| paths::has_part(parts, "emptywindowchatsessions"@)
    ||| paths::has_part(parts, "state.vscdb"@)
}

/// Whether a path is a User directory that holds a storage.
pub open spec fn user_storage(path: Seq<Seq<char>>, disk: DiskView) -> bool {
    paths::name_of(path) == Some("User"@) && (disk.present(
        paths::under(path, "workspaceStorage"@),
    ) || disk.present(paths::under(path, "globalStorage"@)))
}

/// Whether a path is a native storage root of VS Code or one of its children.
pub open spec fn vscode_look(path: Seq<Seq<char>>, disk: DiskView) -> bool {
    vscode_parts(lowered_parts(path)) || user_storage(path, disk)
}

/// The User directories of the products below a directory.
pub open spec fn product_users(base: Seq<Seq<char>>) -> Seq<Seq<Seq<char>>> {
    seq![
        paths::under(base, "Code/User"@),
        paths::under(base, "Code - Insiders/User"@),
        paths::under(base, "VSCodium/User"@),
    ]
}

/// The Copilot Chat directories of the products below a directory.
pub open spec fn product_chats(base: Seq<Seq<char>>) -> Seq<Seq<Seq<char>>> {
    seq![
        paths::under(base, "Code/User/globalStorage/github.copilot-chat"@),
        paths::under(base, "Code - Insiders/User/globalStorage/github.copilot-chat"@),
        paths::under(base, "VSCodium/User/globalStorage/github.copilot-chat"@),
    ]
}

/// The Copilot Chat directories of User directories.
pub open spec fn chats_of(users: Seq<Seq<Seq<char>>>) -> Seq<Seq<Seq<char>>> {
    users.map_values(
        |user: Seq<Seq<char>>| paths::under(user, "globalStorage/github.copilot-chat"@),
    )
}

/// The User directories on Linux.
pub open spec fn linux_users(user: UserView) -> Seq<Seq<Seq<char>>> {
    match user.home {
        Some(home) => seq![
            paths::under(home, ".config/Code/User"@),
            paths::under(home, ".config/Code - Insiders/User"@),
            paths::under(home, ".config/VSCodium/User"@),
        ],
        None => Seq::empty(),
    }
}

/// The User directories on macOS.
pub open spec fn macos_users(user: UserView) -> Seq<Seq<Seq<char>>> {
    match user.home {
        Some(home) => seq![
            paths::under(home, "Library/Application Support/Code/User"@),
            paths::under(home, "Library/Application Support/Code - Insiders/User"@),
            paths::under(home, "Library/Application Support/VSCodium/User"@),
        ],
        None => Seq::empty(),
    }
}

/// The User directories on Windows.
pub open spec fn windows_users(user: UserView) -> Seq<Seq<Seq<char>>> {
    match user.config {
        Some(config) => product_users(config),
        None => Seq::empty(),
    }
}

/// The directories of the Copilot CLI.
pub open spec fn cli_dirs(user: UserView) -> Seq<Seq<Seq<char>>> {
    match user.home {
        Some(home) => seq![
            paths::under(home, ".config/gh-copilot"@),
            paths::under(home, ".config/gh/copilot"@),
            paths::under(home, ".copilot/session-state"@),
            paths::under(home, ".copilot/history-session-state"@),
        ],
        None => Seq::empty(),
    }
}

/// The User directories of all platforms, each once and in order.
pub open spec fn all_users(user: UserView) -> Seq<Seq<Seq<char>>> {
    order::distinct::<FilePath>(linux_users(user) + macos_users(user) + windows_users(user))
}

/// All default places of the user, each once and in order.
pub open spec fn all_candidates(user: UserView) -> Seq<Seq<Seq<char>>> {
    order::distinct::<FilePath>(
        all_users(user) + chats_of(linux_users(user)) + chats_of(macos_users(user)) + chats_of(
            windows_users(user),
        ) + cli_dirs(user),
    )
}

/// The path that a text leads to, if it exists and a condition holds.
pub open spec fn present_if(
    condition: bool,
    base: Seq<Seq<char>>,
    tail: Seq<char>,
    disk: DiskView,
) -> Seq<Seq<Seq<char>>> {
    paths::only_if(condition && disk.present(paths::under(base, tail)), paths::under(base, tail))
}

/// Whether the last name of a path is a given one.
pub open spec fn named(path: Seq<Seq<char>>, name: Seq<char>) -> bool {
    paths::name_of(path) == Some(name)
}

/// Whether a path is the directory of a product.
pub open spec fn is_product(path: Seq<Seq<char>>) -> bool {
    named(path, "Code"@) || named(path, "Code - Insiders"@) || named(path, "VSCodium"@)
}

/// Whether a path is the roaming directory of a Windows user.
pub open spec fn is_roaming(path: Seq<Seq<char>>) -> bool {
    named(path, "Roaming"@) && paths::name_in(paths::parent_of(path)) == Some("AppData"@)
}

/// Whether a path is the storage of one workspace.
pub open spec fn is_workspace(path: Seq<Seq<char>>) -> bool {
    paths::name_in(paths::parent_of(path)) == Some("workspaceStorage"@)
}

/// How often a given path is itself a root.
pub open spec fn own_roots(base: Seq<Seq<char>>, disk: DiskView) -> Seq<Seq<Seq<char>>> {
    paths::only_if(
        disk.present(base) && (copilot_look(base) || vscode_look(base, disk) || is_workspace(base)),
        base,
    ) + paths::only_if(named(base, "User"@), base) + paths::only_if(
        (disk.is_file(base) && named(base, "state.vscdb"@)) || named(base, "workspaceStorage"@)
            || named(base, "chatSessions"@) || named(base, "globalStorage"@),
        base,
    )
}

/// The roots directly below a given path of a known name.
pub open spec fn inner_roots(base: Seq<Seq<char>>, disk: DiskView) -> Seq<Seq<Seq<char>>> {
    let dot_copilot = named(base, ".copilot"@);
    let global = named(base, "globalStorage"@);
    present_if(is_workspace(base), base, "chatSessions"@, disk) + present_if(
        dot_copilot,
        base,
        "session-state"@,
        disk,
    ) + present_if(dot_copilot, base, "history-session-state"@, disk) + present_if(
        global,
        base,
        "github.copilot-chat"@,
        disk,
    ) + present_if(global, base, "emptyWindowChatSessions"@, disk) + present_if(
        named(base, "gh"@),
        base,
        "copilot"@,
        disk,
    )
}

/// Where roots may be below a directory that is none of those known by name: it
/// may be a home directory on any platform.
pub open spec fn home_candidates(base: Seq<Seq<char>>) -> Seq<Seq<Seq<char>>> {
    seq![
        paths::under(base, ".config/Code/User"@),
        paths::under(base, ".config/Code - Insiders/User"@),
        paths::under(base, ".config/VSCodium/User"@),
        paths::under(base, "Library/Application Support/Code/User"@),
        paths::under(base, "Library/Application Support/Code - Insiders/User"@),
        paths::under(base, "Library/Application Support/VSCodium/User"@),
        paths::under(base, "AppData/Roaming/Code/User"@),
        paths::under(base, "AppData/Roaming/Code - Insiders/User"@),
        paths::under(base, "AppData/Roaming/VSCodium/User"@),
        paths::under(base, ".config/Code/User/globalStorage/github.copilot-chat"@),
        paths::under(base, ".config/Code - Insiders/User/globalStorage/github.copilot-chat"@),
        paths::under(base, ".config/VSCodium/User/globalStorage/github.copilot-chat"@),
        paths::under(
            base,
            "Library/Application Support/Code/User/globalStorage/github.copilot-chat"@,
        ),
        paths::under(
            base,
            "Library/Application Support/Code - Insiders/User/globalStorage/github.copilot-chat"@,
        ),
        paths::under(
            base,
            "Library/Application Support/VSCodium/User/globalStorage/github.copilot-chat"@,
        ),
        paths::under(base, "AppData/Roaming/Code/User/globalStorage/github.copilot-chat"@),
        paths::under(
            base,
            "AppData/Roaming/Code - Insiders/User/globalStorage/github.copilot-chat"@,
        ),
        paths::under(base, "AppData/Roaming/VSCodium/User/globalStorage/github.copilot-chat"@),
        paths::under(base, ".config/gh-copilot"@),
        paths::under(base, ".config/gh/copilot"@),
        paths::under(base, ".copilot/session-state"@),
        paths::under(base, ".copilot/history-session-state"@),
        paths::under(base, "Code/User"@),
        paths::under(base, "Code - Insiders/User"@),
        paths::under(base, "VSCodium/User"@),
    ]
}

/// Where roots may be below a given path.
pub open spec fn candidates(base: Seq<Seq<char>>) -> Seq<Seq<Seq<char>>> {
    if named(base, ".config"@) {
        product_users(base) + product_chats(base) + seq![
            paths::under(base, "gh-copilot"@),
            paths::under(base, "gh/copilot"@),
        ]
    } else if named(base, "Application Support"@) || is_roaming(base) {
        product_users(base) + product_chats(base)
    } else if is_product(base) {
        seq![
            paths::under(base, "User"@),
            paths::under(base, "User/globalStorage/github.copilot-chat"@),
        ]
    } else if named(base, "User"@) {
        seq![
            paths::under(base, "globalStorage/github.copilot-chat"@),
            paths::under(base, "workspaceStorage"@),
            paths::under(base, "globalStorage"@),
        ]
    } else if named(base, "globalStorage"@) {
        Seq::empty()
    } else {
        home_candidates(base)
    }
}

/// Whether a candidate is a root.
pub open spec fn is_root(path: Seq<Seq<char>>, disk: DiskView) -> bool {
    disk.present(path) && (copilot_look(path) || vscode_look(path, disk) || named(path, "User"@))
}

/// Those of some candidates that are roots.
pub open spec fn rooted(list: Seq<Seq<Seq<char>>>, disk: DiskView) -> Seq<Seq<Seq<char>>>
    decreases list.len(),
{
    if list.len() == 0 {
        Seq::empty()
    } else {
        rooted(list.drop_last(), disk) + paths::only_if(is_root(list.last(), disk), list.last())
    }
}

/// The roots that a given path stands for: itself where it is a storage, and
/// the storages at the known places below it.
pub open spec fn explicit_roots(base: Seq<Seq<char>>, disk: DiskView) -> Seq<Seq<Seq<char>>> {
    own_roots(base, disk) + inner_roots(base, disk) + rooted(candidates(base), disk)
}

/// The roots that some given places stand for, on the machines that they are on.
pub open spec fn given_roots(roots: Seq<RootView>, disk: DiskView) -> Seq<RootView>
    decreases roots.len(),
{
    if roots.len() == 0 {
        Seq::empty()
    } else {
        given_roots(roots.drop_last(), disk) + scan::roots_at(
            explicit_roots(roots.last().path, disk),
            roots.last().origin,
        )
    }
}

/// The roots to scan, each path once and in order. Without given places, the
/// data directory where it looks like a storage, else the default places.
pub open spec fn roots_to_scan(context: ContextView, user: UserView, disk: DiskView) -> Seq<
    RootView,
> {
    order::distinct::<ScanRoot>(
        if context.scan_roots.len() == 0 {
            if (copilot_look(context.data_dir) || vscode_look(context.data_dir, disk))
                && disk.present(context.data_dir) {
                seq![scan::local_root(context.data_dir)]
            } else {
                scan::roots_at(disk::present_ones(all_candidates(user), disk), "local"@)
            }
        } else {
            given_roots(context.scan_roots, disk)
        },
    )
}

/// A path and the storages that may be directly below it.
pub open spec fn storage_probes(path: Seq<Seq<char>>) -> Seq<Seq<Seq<char>>> {
    seq![path, paths::under(path, "workspaceStorage"@), paths::under(path, "globalStorage"@)]
}

/// Some paths, each with the storages that may be directly below it.
pub open spec fn all_storage_probes(list: Seq<Seq<Seq<char>>>) -> Seq<Seq<Seq<char>>>
    decreases list.len(),
{
    if list.len() == 0 {
        Seq::empty()
    } else {
        all_storage_probes(list.drop_last()) + storage_probes(list.last())
    }
}

/// Where to look to tell the roots that a given path stands for.
pub open spec fn base_probes(base: Seq<Seq<char>>) -> Seq<Seq<Seq<char>>> {
    storage_probes(base) + seq![
        paths::under(base, "chatSessions"@),
        paths::under(base, "session-state"@),
        paths::under(base, "history-session-state"@),
        paths::under(base, "github.copilot-chat"@),
        paths::under(base, "emptyWindowChatSessions"@),
        paths::under(base, "copilot"@),
    ] + all_storage_probes(candidates(base))
}

/// Where to look to tell the roots that some given places stand for.
pub open spec fn given_probes(list: Seq<RootView>) -> Seq<Seq<Seq<char>>>
    decreases list.len(),
{
    if list.len() == 0 {
        Seq::empty()
    } else {
        given_probes(list.drop_last()) + base_probes(list.last().path)
    }
}

/// Where to look to tell the roots to scan.
pub open spec fn probes(context: ContextView, user: UserView) -> Seq<Seq<Seq<char>>> {
    if context.scan_roots.len() == 0 {
        storage_probes(context.data_dir) + all_candidates(user)
    } else {
        given_probes(context.scan_roots)
    }
}

/// Whether a path is a session file of VS Code.
pub open spec fn native_look(path: Seq<Seq<char>>) -> bool {
    &&& paths::extension_of(path) matches Some(extension) && (text::ascii_lowered(extension)
        == text::ascii_lowered("json"@) || text::ascii_lowered(extension) == text::ascii_lowered(
        "jsonl"@,
    ))
    &&& paths::has_part(path, "chatSessions"@) || paths::has_part(path, "emptyWindowChatSessions"@)
        || paths::has_part(path, "transferredChatSessions"@)
}

/// How many levels below a root a session file may be.
pub const SESSION_DEPTH: usize = 5;

/// Whether a file met on a walk below a root may hold conversations.
pub open spec fn walked_session(path: Seq<Seq<char>>, root: Seq<Seq<char>>) -> bool {
    &&& path.len() <= root.len() + SESSION_DEPTH
    &&& paths::name_of(path) matches Some(name) && (text::ends(name, ".json"@) || text::ends(
        name,
        ".jsonl"@,
    ))
    &&& native_look(path) || copilot_look(path)
}

/// Whether a root that is a file may hold conversations.
pub open spec fn file_session(path: Seq<Seq<char>>) -> bool {
    &&& paths::extension_of(path) == Some("json"@) || paths::extension_of(path) == Some("jsonl"@)
    &&& native_look(path) || copilot_look(path)
}

/// Those of some files met on a walk that may hold conversations.
pub open spec fn walked_sessions(files: Seq<Seq<Seq<char>>>, root: Seq<Seq<char>>) -> Seq<
    Seq<Seq<char>>,
>
    decreases files.len(),
{
    if files.len() == 0 {
        Seq::empty()
    } else {
        walked_sessions(files.drop_last(), root) + paths::only_if(
            walked_session(files.last(), root),
            files.last(),
        )
    }
}

/// The files of a root that may hold conversations, in order.
pub open spec fn session_files(root: Seq<Seq<char>>, disk: DiskView) -> Seq<Seq<Seq<char>>> {
    if !disk.present(root) {
        Seq::empty()
    } else if disk.is_file(root) {
        paths::only_if(file_session(root), root)
    } else {
        order::ordered::<FilePath>(walked_sessions(disk.walked(root), root))
    }
}

/// Whether a file is the database of a workspace below a directory.
pub open spec fn workspace_database(path: Seq<Seq<char>>, storage: Seq<Seq<char>>) -> bool {
    &&& path.len() == storage.len() + 2
    &&& paths::lies_in(path, storage)
    &&& path.last() == "state.vscdb"@
}

/// Whether a file is a database of a root that is a directory.
pub open spec fn is_database(path: Seq<Seq<char>>, root: Seq<Seq<char>>) -> bool {
    ||| path == paths::under(root, "state.vscdb"@)
    ||| named(root, "User"@) && (path == paths::under(root, "globalStorage/state.vscdb"@)
        || workspace_database(path, paths::under(root, "workspaceStorage"@)))
    ||| named(root, "workspaceStorage"@) && workspace_database(path, root)
}

/// Those of some files that are databases of a root.
pub open spec fn databases_among(
    files: Seq<FileView>,
    root: Seq<Seq<char>>,
) -> Seq<Seq<Seq<char>>>
    decreases files.len(),
{
    if files.len() == 0 {
        Seq::empty()
    } else {
        databases_among(files.drop_last(), root) + paths::only_if(
            is_database(files.last().path, root),
            files.last().path,
        )
    }
}

/// The state databases of a root, each once and in order.
pub open spec fn database_files(root: Seq<Seq<char>>, disk: DiskView) -> Seq<Seq<Seq<char>>> {
    if disk.is_file(root) {
        paths::only_if(named(root, "state.vscdb"@), root)
    } else {
        order::distinct::<FilePath>(databases_among(disk.files, root))
    }
}

/// The sources of a root: its files, then its databases, as far as they changed
/// since a time.
pub open spec fn root_sources(root: RootView, since: Option<i64>, disk: DiskView) -> Seq<
    SourceView,
> {
    scan::fresh_sources(
        "copilot"@,
        root,
        session_files(root.path, disk),
        DiscoveredSourceRole::PrimarySessionLog,
        since,
        disk,
    ) + scan::fresh_sources(
        "copilot"@,
        root,
        database_files(root.path, disk),
        DiscoveredSourceRole::SqliteDatabase,
        since,
        disk,
    )
}

/// The sources of some roots.
pub open spec fn roots_sources(roots: Seq<RootView>, since: Option<i64>, disk: DiskView) -> Seq<
    SourceView,
>
    decreases roots.len(),
{
    if roots.len() == 0 {
        Seq::empty()
    } else {
        roots_sources(roots.drop_last(), since, disk) + root_sources(roots.last(), since, disk)
    }
}

/// The sources to scan, root by root. Roots that lie in one another share
/// sources.
pub open spec fn sources_by_root(context: ContextView, user: UserView, disk: DiskView) -> Seq<
    SourceView,
> {
    roots_sources(roots_to_scan(context, user, disk), context.since_ts, disk)
}

/// The sources to scan, each path once and in order.
pub open spec fn sources(context: ContextView, user: UserView, disk: DiskView) -> Seq<SourceView> {
    order::distinct::<DiscoveredSourceFile>(sources_by_root(context, user, disk))
}

/// The names of a path in lower case.
fn lower_parts(path: &FilePath) -> (out: FilePath)
    ensures
        out@ == lowered_parts(path@),
{
    let mut parts: Vec<String> = Vec::new();
    let mut i: usize = 0;
    while i < path.parts.len()
        invariant
            i <= path.parts.len(),
            parts.len() == i,
            forall|j: int|
                0 <= j < i ==> (#[trigger] parts[j])@ == text::lowered(path.parts[j]@),
        decreases path.parts.len() - i,
    {
        parts.push(text::lowercase(path.parts[i].as_str()));
        i += 1;
    }
    assert(text::texts(parts@) =~= lowered_parts(path@));
    FilePath { parts }
}

/// Whether two names stand one behind the other.
fn pair_in(path: &FilePath, first: &str, second: &str) -> (yes: bool)
    ensures
        yes == has_pair(path@, first@, second@),
{
    let mut i: usize = 0;
    while path.parts.len() - i > 1
        invariant
            i <= path.parts.len(),
            forall|j: int|
                0 <= j < i && j < path@.len() - 1 ==> !(#[trigger] path@[j] == first@ && path@[j
                    + 1] == second@),
        decreases path.parts.len() - i,
    {
        assert(path@[i as int] == path.parts[i as int]@);
        assert(path@[i + 1] == path.parts[i + 1]@);
        if text::same_text(path.parts[i].as_str(), first) && text::same_text(
            path.parts[i + 1].as_str(),
            second,
        ) {
            return true;
        }
        i += 1;
    }
    false
}

/// Puts the path that a text leads to behind others, if it exists and a
/// condition holds.
fn push_present(out: &mut Vec<FilePath>, condition: bool, base: &FilePath, tail: &str, disk: &Disk)
    ensures
        paths::views(final(out)@) == paths::views(old(out)@) + present_if(
            condition,
            base@,
            tail@,
            disk@,
        ),
{
    let path = base.join(tail);
    paths::push_if(out, condition && disk.present(&path), &path);
}

/// The Copilot Chat directories of User directories.
fn chats(users: &Vec<FilePath>) -> (out: Vec<FilePath>)
    ensures
        paths::views(out@) == chats_of(paths::views(users@)),
{
    let mut out: Vec<FilePath> = Vec::new();
    let mut i: usize = 0;
    while i < users.len()
        invariant
            i <= users.len(),
            out.len() == i,
            forall|j: int|
                0 <= j < i ==> (#[trigger] out[j])@ == paths::under(
                    users[j]@,
                    "globalStorage/github.copilot-chat"@,
                ),
        decreases users.len() - i,
    {
        out.push(users[i].join("globalStorage/github.copilot-chat"));
        i += 1;
    }
    assert(paths::views(out@) =~= chats_of(paths::views(users@)));
    out
}

impl CopilotConnector {
    /// The User directories on Linux.
    pub fn vscode_linux_user_paths(user: &UserDirs) -> (out: Vec<FilePath>)
        ensures
            paths::views(out@) == linux_users(user@),
    {
        let mut out: Vec<FilePath> = Vec::new();
        if let Some(home) = &user.home {
            out.push(home.join(".config/Code/User"));
            out.push(home.join(".config/Code - Insiders/User"));
            out.push(home.join(".config/VSCodium/User"));
        }
        assert(paths::views(out@) =~= linux_users(user@));
        out
    }

    /// The User directories on macOS.
    pub fn vscode_macos_user_paths(user: &UserDirs) -> (out: Vec<FilePath>)
        ensures
            paths::views(out@) == macos_users(user@),
    {
        let mut out: Vec<FilePath> = Vec::new();
        if let Some(home) = &user.home {
            out.push(home.join("Library/Application Support/Code/User"));
            out.push(home.join("Library/Application Support/Code - Insiders/User"));
            out.push(home.join("Library/Application Support/VSCodium/User"));
        }
        assert(paths::views(out@) =~= macos_users(user@));
        out
    }

    /// The User directories on Windows.
    pub fn vscode_windows_user_paths(user: &UserDirs) -> (out: Vec<FilePath>)
        ensures
            paths::views(out@) == windows_users(user@),
    {
        let mut out: Vec<FilePath> = Vec::new();
        if let Some(config) = &user.config {
            out.push(config.join("Code/User"));
            out.push(config.join("Code - Insiders/User"));
            out.push(config.join("VSCodium/User"));
        }
        assert(paths::views(out@) =~= windows_users(user@));
        out
    }

    /// The User directories of all platforms, each once and in order.
    pub fn vscode_user_paths(user: &UserDirs) -> (out: Vec<FilePath>)
        ensures
            paths::views(out@) == all_users(user@),
    {
        let mut all = Self::vscode_linux_user_paths(user);
        paths::push_all(&mut all, Self::vscode_macos_user_paths(user));
        paths::push_all(&mut all, Self::vscode_windows_user_paths(user));
        order::in_order_once(all)
    }

    /// The Copilot Chat directories on Linux.
    pub fn vscode_linux_paths(user: &UserDirs) -> (out: Vec<FilePath>)
        ensures
            paths::views(out@) == chats_of(linux_users(user@)),
    {
        chats(&Self::vscode_linux_user_paths(user))
    }

    /// The Copilot Chat directories on macOS.
    pub fn vscode_macos_paths(user: &UserDirs) -> (out: Vec<FilePath>)
        ensures
            paths::views(out@) == chats_of(macos_users(user@)),
    {
        chats(&Self::vscode_macos_user_paths(user))
    }

    /// The Copilot Chat directories on Windows.
    pub fn vscode_windows_paths(user: &UserDirs) -> (out: Vec<FilePath>)
        ensures
            paths::views(out@) == chats_of(windows_users(user@)),
    {
        chats(&Self::vscode_windows_user_paths(user))
    }

    /// The directories of the Copilot CLI.
    pub fn gh_copilot_paths(user: &UserDirs) -> (out: Vec<FilePath>)
        ensures
            paths::views(out@) == cli_dirs(user@),
    {
        let mut out: Vec<FilePath> = Vec::new();
        if let Some(home) = &user.home {
            out.push(home.join(".config/gh-copilot"));
            out.push(home.join(".config/gh/copilot"));
            out.push(home.join(".copilot/session-state"));
            out.push(home.join(".copilot/history-session-state"));
        }
        assert(paths::views(out@) =~= cli_dirs(user@));
        out
    }

    /// All default places of the user, each once and in order.
    pub fn all_candidate_paths(user: &UserDirs) -> (out: Vec<FilePath>)
        ensures
            paths::views(out@) == all_candidates(user@),
    {
        let mut all = Self::vscode_user_paths(user);
        paths::push_all(&mut all, Self::vscode_linux_paths(user));
        paths::push_all(&mut all, Self::vscode_macos_paths(user));
        paths::push_all(&mut all, Self::vscode_windows_paths(user));
        paths::push_all(&mut all, Self::gh_copilot_paths(user));
        order::in_order_once(all)
    }

    /// Whether a path, in lower case, leads into the storage of Copilot.
    pub fn is_copilot_storage(lower: &FilePath) -> (yes: bool)
        ensures
            yes == copilot_parts(lower@),
    {
        lower.has("github.copilot-chat") || lower.has("copilot-chat") || lower.has("gh-copilot")
            || pair_in(lower, ".copilot", "session-state") || pair_in(
            lower,
            ".copilot",
            "history-session-state",
        ) || pair_in(lower, "gh", "copilot")
    }

    /// Whether a path leads into the storage of Copilot Chat or of the Copilot
    /// CLI.
    pub fn looks_like_copilot_storage(path: &FilePath) -> (yes: bool)
        ensures
            yes == copilot_look(path@),
    {
        Self::is_copilot_storage(&lower_parts(path))
    }

    /// Whether a path, in lower case, leads into the chat storage of VS Code.
    pub fn is_vscode_storage(lower: &FilePath) -> (yes: bool)
        ensures
            yes == vscode_parts(lower@),
    {
        lower.has("workspacestorage") || lower.has("chatsessions") || lower.has(
            "emptywindowchatsessions",
        ) || lower.has("state.vscdb")
    }

    /// Whether a path is a native storage root of VS Code or one of its children.
    pub fn looks_like_vscode_storage(path: &FilePath, disk: &Disk) -> (yes: bool)
        ensures
            yes == vscode_look(path@, disk@),
    {
        Self::is_vscode_storage(&lower_parts(path)) || (path.is_named("User") && (disk.present(
            &path.join("workspaceStorage"),
        ) || disk.present(&path.join("globalStorage"))))
    }

    /// Puts the User and Copilot Chat directories of the products behind others.
    fn push_products(out: &mut Vec<FilePath>, base: &FilePath)
        ensures
            paths::views(final(out)@) == paths::views(old(out)@) + product_users(base@)
                + product_chats(base@),
    {
        let ghost before = paths::views(out@);
        out.push(base.join("Code/User"));
        out.push(base.join("Code - Insiders/User"));
        out.push(base.join("VSCodium/User"));
        out.push(base.join("Code/User/globalStorage/github.copilot-chat"));
        out.push(base.join("Code - Insiders/User/globalStorage/github.copilot-chat"));
        out.push(base.join("VSCodium/User/globalStorage/github.copilot-chat"));
        assert(paths::views(out@) =~= before + product_users(base@) + product_chats(base@));
    }

    /// Where roots may be below a home directory on any platform.
    fn home_candidate_paths(base: &FilePath) -> (out: Vec<FilePath>)
        ensures
            paths::views(out@) == home_candidates(base@),
    {
        let mut out: Vec<FilePath> = Vec::new();
        out.push(base.join(".config/Code/User"));
        out.push(base.join(".config/Code - Insiders/User"));
        out.push(base.join(".config/VSCodium/User"));
        out.push(base.join("Library/Application Support/Code/User"));
        out.push(base.join("Library/Application Support/Code - Insiders/User"));
        out.push(base.join("Library/Application Support/VSCodium/User"));
        out.push(base.join("AppData/Roaming/Code/User"));
        out.push(base.join("AppData/Roaming/Code - Insiders/User"));
        out.push(base.join("AppData/Roaming/VSCodium/User"));
        out.push(base.join(".config/Code/User/globalStorage/github.copilot-chat"));
        out.push(base.join(".config/Code - Insiders/User/globalStorage/github.copilot-chat"));
        out.push(base.join(".config/VSCodium/User/globalStorage/github.copilot-chat"));
        out.push(base.join("Library/Application Support/Code/User/globalStorage/github.copilot-chat"));
        out.push(base.join("Library/Application Support/Code - Insiders/User/globalStorage/github.copilot-chat"));
        out.push(base.join("Library/Application Support/VSCodium/User/globalStorage/github.copilot-chat"));
        out.push(base.join("AppData/Roaming/Code/User/globalStorage/github.copilot-chat"));
        out.push(base.join("AppData/Roaming/Code - Insiders/User/globalStorage/github.copilot-chat"));
        out.push(base.join("AppData/Roaming/VSCodium/User/globalStorage/github.copilot-chat"));
        out.push(base.join(".config/gh-copilot"));
        out.push(base.join(".config/gh/copilot"));
        out.push(base.join(".copilot/session-state"));
        out.push(base.join(".copilot/history-session-state"));
        out.push(base.join("Code/User"));
        out.push(base.join("Code - Insiders/User"));
        out.push(base.join("VSCodium/User"));
        assert(paths::views(out@) =~= home_candidates(base@));
        out
    }

    /// Where roots may be below a given path.
    pub fn candidate_paths(base: &FilePath) -> (out: Vec<FilePath>)
        ensures
            paths::views(out@) == candidates(base@),
    {
        let mut out: Vec<FilePath> = Vec::new();
        if base.is_named(".config") {
            Self::push_products(&mut out, base);
            out.push(base.join("gh-copilot"));
            out.push(base.join("gh/copilot"));
        } else if base.is_named("Application Support") || (base.is_named("Roaming")
            && base.parent_is_named("AppData")) {
            Self::push_products(&mut out, base);
        } else if base.is_named("Code") || base.is_named("Code - Insiders") || base.is_named(
            "VSCodium",
        ) {
            out.push(base.join("User"));
            out.push(base.join("User/globalStorage/github.copilot-chat"));
        } else if base.is_named("User") {
            out.push(base.join("globalStorage/github.copilot-chat"));
            out.push(base.join("workspaceStorage"));
            out.push(base.join("globalStorage"));
        } else if !base.is_named("globalStorage") {
            return Self::home_candidate_paths(base);
        }
        assert(paths::views(out@) =~= candidates(base@));
        out
    }

    /// Puts a given path behind others as often as it is itself a root.
    fn push_own(roots: &mut Vec<FilePath>, base: &FilePath, disk: &Disk)
        ensures
            paths::views(final(roots)@) == paths::views(old(roots)@) + own_roots(base@, disk@),
    {
        let ghost before = paths::views(roots@);
        let is_storage = disk.present(base) && (Self::looks_like_copilot_storage(base)
            || Self::looks_like_vscode_storage(base, disk) || base.parent_is_named(
            "workspaceStorage",
        ));
        let is_layer = (disk.is_file(base) && base.is_named("state.vscdb")) || base.is_named(
            "workspaceStorage",
        ) || base.is_named("chatSessions") || base.is_named("globalStorage");
        paths::push_if(roots, is_storage, base);
        paths::push_if(roots, base.is_named("User"), base);
        paths::push_if(roots, is_layer, base);
        assert(paths::views(roots@) =~= before + own_roots(base@, disk@));
    }

    /// Puts the roots directly below a given path of a known name behind others.
    fn push_inner(roots: &mut Vec<FilePath>, base: &FilePath, disk: &Disk)
        ensures
            paths::views(final(roots)@) == paths::views(old(roots)@) + inner_roots(base@, disk@),
    {
        let is_workspace_id = base.parent_is_named("workspaceStorage");
        let is_dot_copilot = base.is_named(".copilot");
        let is_global_storage = base.is_named("globalStorage");
        let mut inner: Vec<FilePath> = Vec::new();
        push_present(&mut inner, is_workspace_id, base, "chatSessions", disk);
        assert(paths::views(inner@) =~= present_if(
            is_workspace_id,
            base@,
            "chatSessions"@,
            disk@,
        ));
        push_present(&mut inner, is_dot_copilot, base, "session-state", disk);
        push_present(&mut inner, is_dot_copilot, base, "history-session-state", disk);
        push_present(&mut inner, is_global_storage, base, "github.copilot-chat", disk);
        push_present(&mut inner, is_global_storage, base, "emptyWindowChatSessions", disk);
        push_present(&mut inner, base.is_named("gh"), base, "copilot", disk);
        paths::push_all(roots, inner);
    }

    /// Puts those of some candidates that are roots behind others.
    fn push_rooted(roots: &mut Vec<FilePath>, list: &Vec<FilePath>, disk: &Disk)
        ensures
            paths::views(final(roots)@) == paths::views(old(roots)@) + rooted(
                paths::views(list@),
                disk@,
            ),
    {
        let ghost before = paths::views(roots@);
        let ghost all = paths::views(list@);
        let mut i: usize = 0;
        assert(before + rooted(all.take(0), disk@) =~= before);
        while i < list.len()
            invariant
                i <= list.len(),
                all == paths::views(list@),
                paths::views(roots@) == before + rooted(all.take(i as int), disk@),
            decreases list.len() - i,
        {
            let candidate = &list[i];
            assert(all.take(i + 1).drop_last() =~= all.take(i as int));
            assert(all.take(i + 1).last() == candidate@);
            let here = disk.present(candidate) && (Self::looks_like_copilot_storage(candidate)
                || Self::looks_like_vscode_storage(candidate, disk) || candidate.is_named("User"));
            paths::push_if(roots, here, candidate);
            assert(paths::views(roots@) =~= before + rooted(all.take(i + 1), disk@));
            i += 1;
        }
        assert(all.take(i as int) =~= all);
    }

    /// Puts the roots that a given path stands for behind others: the path
    /// itself where it is a storage, and the storages at the known places below
    /// it.
    pub fn append_explicit_roots(roots: &mut Vec<FilePath>, base: &FilePath, disk: &Disk)
        ensures
            paths::views(final(roots)@) == paths::views(old(roots)@) + explicit_roots(base@, disk@),
    {
        let ghost before = paths::views(roots@);
        Self::push_own(roots, base, disk);
        Self::push_inner(roots, base, disk);
        let list = Self::candidate_paths(base);
        Self::push_rooted(roots, &list, disk);
        assert(paths::views(roots@) =~= before + explicit_roots(base@, disk@));
    }

    /// The roots to scan, each path once and in order.
    pub fn source_roots(context: &ScanContext, user: &UserDirs, disk: &Disk) -> (roots: Vec<
        ScanRoot,
    >)
        ensures
            order::seen::<ScanRoot>(roots@) == roots_to_scan(context@, user@, disk@),
    {
        let mut roots: Vec<ScanRoot> = Vec::new();
        let data_dir = &context.data_dir;
        assert(order::seen::<ScanRoot>(roots@) =~= Seq::empty());
        if context.use_default_detection() {
            if (Self::looks_like_copilot_storage(data_dir) || Self::looks_like_vscode_storage(
                data_dir,
                disk,
            )) && disk.present(data_dir) {
                roots.push(ScanRoot::local(data_dir.copy()));
                assert(order::seen::<ScanRoot>(roots@) =~= seq![scan::local_root(data_dir@)]);
            } else {
                let list = Self::all_candidate_paths(user);
                let found = disk::present_paths(&list, disk);
                let here = ScanRoot::local(data_dir.copy());
                scan::push_roots(&mut roots, found, &here);
                assert(order::seen::<ScanRoot>(roots@) =~= scan::roots_at(
                    disk::present_ones(all_candidates(user@), disk@),
                    "local"@,
                ));
            }
        } else {
            let ghost given = context@.scan_roots;
            let mut i: usize = 0;
            while i < context.scan_roots.len()
                invariant
                    i <= context.scan_roots.len(),
                    given == context@.scan_roots,
                    order::seen::<ScanRoot>(roots@) =~= given_roots(given.take(i as int), disk@),
                decreases context.scan_roots.len() - i,
            {
                let root = &context.scan_roots[i];
                assert(given.take(i + 1).drop_last() =~= given.take(i as int));
                assert(given.take(i + 1).last() == root@);
                let mut list: Vec<FilePath> = Vec::new();
                Self::append_explicit_roots(&mut list, &root.path, disk);
                assert(paths::views(list@) =~= explicit_roots(root@.path, disk@));
                scan::push_roots(&mut roots, list, root);
                i += 1;
            }
            assert(given.take(i as int) =~= given);
        }
        order::in_order_once(roots)
    }

    /// Puts a path and the storages that may be directly below it behind others.
    fn push_storage_probes(out: &mut Vec<FilePath>, path: &FilePath)
        ensures
            paths::views(final(out)@) == paths::views(old(out)@) + storage_probes(path@),
    {
        let ghost before = paths::views(out@);
        out.push(path.copy());
        out.push(path.join("workspaceStorage"));
        out.push(path.join("globalStorage"));
        assert(paths::views(out@) =~= before + storage_probes(path@));
    }

    /// Where to look to tell the roots that a given path stands for.
    fn base_probe_paths(base: &FilePath) -> (out: Vec<FilePath>)
        ensures
            paths::views(out@) == base_probes(base@),
    {
        let mut out: Vec<FilePath> = Vec::new();
        Self::push_storage_probes(&mut out, base);
        out.push(base.join("chatSessions"));
        out.push(base.join("session-state"));
        out.push(base.join("history-session-state"));
        out.push(base.join("github.copilot-chat"));
        out.push(base.join("emptyWindowChatSessions"));
        out.push(base.join("copilot"));
        let ghost fixed = paths::views(out@);
        let list = Self::candidate_paths(base);
        let ghost all = paths::views(list@);
        let mut i: usize = 0;
        assert(fixed + all_storage_probes(all.take(0)) =~= fixed);
        while i < list.len()
            invariant
                i <= list.len(),
                all == paths::views(list@),
                paths::views(out@) == fixed + all_storage_probes(all.take(i as int)),
            decreases list.len() - i,
        {
            assert(all.take(i + 1).drop_last() =~= all.take(i as int));
            assert(all.take(i + 1).last() == list[i as int]@);
            Self::push_storage_probes(&mut out, &list[i]);
            assert(paths::views(out@) =~= fixed + all_storage_probes(all.take(i + 1)));
            i += 1;
        }
        assert(all.take(i as int) =~= all);
        assert(paths::views(out@) =~= base_probes(base@));
        out
    }

    /// Where to look to tell the roots to scan.
    pub fn probe_paths(context: &ScanContext, user: &UserDirs) -> (out: Vec<FilePath>)
        ensures
            paths::views(out@) == probes(context@, user@),
    {
        let mut out: Vec<FilePath> = Vec::new();
        assert(paths::views(out@) =~= Seq::empty());
        if context.use_default_detection() {
            Self::push_storage_probes(&mut out, &context.data_dir);
            paths::push_all(&mut out, Self::all_candidate_paths(user));
            assert(paths::views(out@) =~= probes(context@, user@));
        } else {
            let ghost given = context@.scan_roots;
            let mut i: usize = 0;
            while i < context.scan_roots.len()
                invariant
                    i <= context.scan_roots.len(),
                    given == context@.scan_roots,
                    paths::views(out@) =~= given_probes(given.take(i as int)),
                decreases context.scan_roots.len() - i,
            {
                assert(given.take(i + 1).drop_last() =~= given.take(i as int));
                assert(given.take(i + 1).last() == context.scan_roots[i as int]@);
                paths::push_all(&mut out, Self::base_probe_paths(&context.scan_roots[i].path));
                i += 1;
            }
            assert(given.take(i as int) =~= given);
        }
        out
    }

    /// Whether a path is a session file of VS Code.
    pub fn native_session_file(path: &FilePath) -> (yes: bool)
        ensures
            yes == native_look(path@),
    {
        let is_session_file = match path.extension() {
            Some(extension) => text::same_ignoring_case(extension.as_str(), "json")
                || text::same_ignoring_case(extension.as_str(), "jsonl"),
            None => false,
        };
        is_session_file && (path.has("chatSessions") || path.has("emptyWindowChatSessions")
            || path.has("transferredChatSessions"))
    }

    /// The files of a root that may hold conversations, in order.
    pub fn find_conversation_files(root: &FilePath, disk: &Disk) -> (files: Vec<FilePath>)
        ensures
            paths::views(files@) == session_files(root@, disk@),
    {
        let mut files: Vec<FilePath> = Vec::new();
        assert(paths::views(files@) =~= Seq::empty());
        if !disk.present(root) {
            return files;
        }
        if disk.is_file(root) {
            let known = match root.extension() {
                Some(extension) => text::same_text(extension.as_str(), "json") || text::same_text(
                    extension.as_str(),
                    "jsonl",
                ),
                None => false,
            };
            paths::push_if(
                &mut files,
                known && (Self::native_session_file(root) || Self::looks_like_copilot_storage(
                    root,
                )),
                root,
            );
            assert(paths::views(files@) =~= paths::only_if(file_session(root@), root@));
            return files;
        }
        let list = disk.walked(root);
        let ghost all = paths::views(list@);
        let mut i: usize = 0;
        assert(paths::views(files@) =~= walked_sessions(all.take(0), root@));
        while i < list.len()
            invariant
                i <= list.len(),
                all == paths::views(list@),
                paths::views(files@) == walked_sessions(all.take(i as int), root@),
            decreases list.len() - i,
        {
            let path = &list[i];
            assert(all.take(i + 1).drop_last() =~= all.take(i as int));
            assert(all.take(i + 1).last() == path@);
            assert(path@.len() == path.parts.len() && root@.len() == root.parts.len());
            let near = path.parts.len() <= root.parts.len() || path.parts.len() - root.parts.len()
                <= SESSION_DEPTH;
            let is_json = match path.file_name() {
                Some(name) => text::ends_with(name, ".json") || text::ends_with(name, ".jsonl"),
                None => false,
            };
            paths::push_if(
                &mut files,
                near && is_json && (Self::native_session_file(path)
                    || Self::looks_like_copilot_storage(path)),
                path,
            );
            i += 1;
        }
        assert(all.take(i as int) =~= all);
        order::in_order(files)
    }

    /// Whether a file is the database of a workspace below a directory.
    fn is_workspace_database(path: &FilePath, storage: &FilePath) -> (yes: bool)
        ensures
            yes == workspace_database(path@, storage@),
    {
        assert(path@.len() == path.parts.len() && storage@.len() == storage.parts.len());
        if path.parts.len() < 2 || path.parts.len() - 2 != storage.parts.len() {
            return false;
        }
        assert(path@.last() == path.parts[path.parts.len() - 1]@);
        if !text::same_text(path.parts[path.parts.len() - 1].as_str(), "state.vscdb") {
            return false;
        }
        let mut i: usize = 0;
        while i < storage.parts.len()
            invariant
                i <= storage.parts.len(),
                path.parts.len() == storage.parts.len() + 2,
                forall|j: int| 0 <= j < i ==> path@[j] == storage@[j],
            decreases storage.parts.len() - i,
        {
            if !text::same_text(path.parts[i].as_str(), storage.parts[i].as_str()) {
                assert(path@.take(storage@.len() as int)[i as int] != storage@[i as int]);
                return false;
            }
            assert(path@[i as int] == storage@[i as int]);
            i += 1;
        }
        assert(path@.take(storage@.len() as int) =~= storage@);
        true
    }

    /// The state databases of a root, each once and in order.
    pub fn find_db_files(root: &FilePath, disk: &Disk) -> (files: Vec<FilePath>)
        ensures
            paths::views(files@) == database_files(root@, disk@),
    {
        let mut out: Vec<FilePath> = Vec::new();
        assert(paths::views(out@) =~= Seq::empty());
        if disk.is_file(root) {
            paths::push_if(&mut out, root.is_named("state.vscdb"), root);
            assert(paths::views(out@) =~= paths::only_if(named(root@, "state.vscdb"@), root@));
            return out;
        }
        let direct = root.join("state.vscdb");
        let global = root.join("globalStorage/state.vscdb");
        let workspaces = root.join("workspaceStorage");
        let is_user = root.is_named("User");
        let is_workspaces = root.is_named("workspaceStorage");
        let ghost all = disk@.files;
        let mut i: usize = 0;
        assert(paths::views(out@) =~= databases_among(all.take(0), root@));
        while i < disk.files.len()
            invariant
                i <= disk.files.len(),
                all == disk@.files,
                direct@ == paths::under(root@, "state.vscdb"@),
                global@ == paths::under(root@, "globalStorage/state.vscdb"@),
                workspaces@ == paths::under(root@, "workspaceStorage"@),
                is_user == named(root@, "User"@),
                is_workspaces == named(root@, "workspaceStorage"@),
                paths::views(out@) == databases_among(all.take(i as int), root@),
            decreases disk.files.len() - i,
        {
            let path = &disk.files[i].path;
            assert(all.take(i + 1).drop_last() =~= all.take(i as int));
            assert(all.take(i + 1).last() == disk.files[i as int]@);
            let wanted = path.same(&direct) || (is_user && (path.same(&global)
                || Self::is_workspace_database(path, &workspaces))) || (is_workspaces
                && Self::is_workspace_database(path, root));
            paths::push_if(&mut out, wanted, path);
            i += 1;
        }
        assert(all.take(i as int) =~= all);
        order::in_order_once(out)
    }

    /// The sources to scan, root by root.
    pub fn gather_sources(context: &ScanContext, user: &UserDirs, disk: &Disk) -> (found: Vec<
        DiscoveredSourceFile,
    >)
        ensures
            order::seen::<DiscoveredSourceFile>(found@) == sources_by_root(context@, user@, disk@),
    {
        let roots = Self::source_roots(context, user, disk);
        let ghost all = order::seen::<ScanRoot>(roots@);
        let mut out: Vec<DiscoveredSourceFile> = Vec::new();
        let mut i: usize = 0;
        assert(order::seen::<DiscoveredSourceFile>(out@) =~= Seq::empty());
        while i < roots.len()
            invariant
                i <= roots.len(),
                all == order::seen::<ScanRoot>(roots@),
                order::seen::<DiscoveredSourceFile>(out@) =~= roots_sources(
                    all.take(i as int),
                    context@.since_ts,
                    disk@,
                ),
            decreases roots.len() - i,
        {
            let root = &roots[i];
            assert(all.take(i + 1).drop_last() =~= all.take(i as int));
            assert(all.take(i + 1).last() == root@);
            let files = Self::find_conversation_files(&root.path, disk);
            scan::add_fresh_sources(
                &mut out,
                "copilot",
                root,
                &files,
                DiscoveredSourceRole::PrimarySessionLog,
                context.since_ts,
                disk,
            );
            let databases = Self::find_db_files(&root.path, disk);
            scan::add_fresh_sources(
                &mut out,
                "copilot",
                root,
                &databases,
                DiscoveredSourceRole::SqliteDatabase,
                context.since_ts,
                disk,
            );
            i += 1;
        }
        assert(all.take(i as int) =~= all);
        out
    }

    /// The sources to scan, each path once and in order.
    pub fn discover_sources(context: &ScanContext, user: &UserDirs, disk: &Disk) -> (found: Vec<
        DiscoveredSourceFile,
    >)
        ensures
            order::seen::<DiscoveredSourceFile>(found@) == sources(context@, user@, disk@),
    {
        order::in_order_once(Self::gather_sources(context, user, disk))
    }
}

} // verus!
