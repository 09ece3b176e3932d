//! What holds of the places in which Copilot's sessions are.
use crate::copilot::roots;
use crate::disk;
use crate::disk::{DiskView, FileView};
use crate::order;
use crate::paths;
use crate::paths::FilePath;
use crate::scan;
use crate::scan::{ContextView, DiscoveredSourceRole, RootView, ScanRoot, UserView};
use crate::text;
use vstd::prelude::*;

verus! {

/// Whether a name in lower case is that of a directory of Copilot.
pub open spec fn copilot_directory(name: Seq<char>) -> bool {
    name == "github.copilot-chat"@ || name == "copilot-chat"@ || name == "gh-copilot"@
}

/// Whether two names in lower case, one below the other, are those of a directory
/// of Copilot.
pub open spec fn copilot_directories(upper: Seq<char>, lower: Seq<char>) -> bool {
    ||| upper == ".copilot"@ && (lower == "session-state"@ || lower == "history-session-state"@)
    ||| upper == "gh"@ && lower == "copilot"@
}

/// A path is in Copilot's storage just when, in any case, one of its parts or two
/// next to each other name a directory of Copilot.
pub proof fn law_copilot_storage_is_known_by_its_parts(path: Seq<Seq<char>>)
    ensures
        roots::copilot_look(path) <==> (exists|i: int|
            0 <= i < path.len() && copilot_directory(text::lowered(#[trigger] path[i]))) || exists|
            i: int,
        |
            0 <= i < path.len() - 1 && copilot_directories(
                text::lowered(#[trigger] path[i]),
                text::lowered(path[i + 1]),
            ),
{
    let lower = roots::lowered_parts(path);
    if roots::copilot_look(path) {
        if paths::has_part(lower, "github.copilot-chat"@) {
            let i = choose|i: int|
                0 <= i < lower.len() && #[trigger] lower[i] == "github.copilot-chat"@;
            assert(copilot_directory(text::lowered(path[i])));
        } else if paths::has_part(lower, "copilot-chat"@) {
            let i = choose|i: int| 0 <= i < lower.len() && #[trigger] lower[i] == "copilot-chat"@;
            assert(copilot_directory(text::lowered(path[i])));
        } else if paths::has_part(lower, "gh-copilot"@) {
            let i = choose|i: int| 0 <= i < lower.len() && #[trigger] lower[i] == "gh-copilot"@;
            assert(copilot_directory(text::lowered(path[i])));
        } else if roots::has_pair(lower, ".copilot"@, "session-state"@) {
            let i = choose|i: int|
                0 <= i < lower.len() - 1 && #[trigger] lower[i] == ".copilot"@ && lower[i + 1]
                    == "session-state"@;
            assert(copilot_directories(text::lowered(path[i]), text::lowered(path[i + 1])));
        } else if roots::has_pair(lower, ".copilot"@, "history-session-state"@) {
            let i = choose|i: int|
                0 <= i < lower.len() - 1 && #[trigger] lower[i] == ".copilot"@ && lower[i + 1]
                    == "history-session-state"@;
            assert(copilot_directories(text::lowered(path[i]), text::lowered(path[i + 1])));
        } else {
            let i = choose|i: int|
                0 <= i < lower.len() - 1 && #[trigger] lower[i] == "gh"@ && lower[i + 1]
                    == "copilot"@;
            assert(copilot_directories(text::lowered(path[i]), text::lowered(path[i + 1])));
        }
    }
    if exists|i: int| 0 <= i < path.len() && copilot_directory(text::lowered(#[trigger] path[i])) {
        let i = choose|i: int|
            0 <= i < path.len() && copilot_directory(text::lowered(#[trigger] path[i]));
        assert(lower[i] == text::lowered(path[i]));
    }
    if exists|i: int|
        0 <= i < path.len() - 1 && copilot_directories(
            text::lowered(#[trigger] path[i]),
            text::lowered(path[i + 1]),
        ) {
        let i = choose|i: int|
            0 <= i < path.len() - 1 && copilot_directories(
                text::lowered(#[trigger] path[i]),
                text::lowered(path[i + 1]),
            );
        assert(lower[i] == text::lowered(path[i]));
        assert(lower[i + 1] == text::lowered(path[i + 1]));
    }
}

/// Whether a name in lower case is that of a storage of VS Code.
pub open spec fn vscode_storage(name: Seq<char>) -> bool {
    name == "workspacestorage"@ || name == "chatsessions"@ || name == "emptywindowchatsessions"@
        || name == "state.vscdb"@
}

/// A path is in VS Code's storage just when, in any case, one of its parts names a
/// storage, or when it is a `User` directory in which there is one.
pub proof fn law_vscode_storage_is_known_by_its_parts(path: Seq<Seq<char>>, disk: DiskView)
    ensures
        roots::vscode_look(path, disk) <==> (exists|i: int|
            0 <= i < path.len() && vscode_storage(text::lowered(#[trigger] path[i]))) || (
        paths::name_of(path) == Some("User"@) && (disk.present(
            paths::under(path, "workspaceStorage"@),
        ) || disk.present(paths::under(path, "globalStorage"@)))),
{
    let lower = roots::lowered_parts(path);
    if roots::vscode_parts(lower) {
        let name = if paths::has_part(lower, "workspacestorage"@) {
            "workspacestorage"@
        } else if paths::has_part(lower, "chatsessions"@) {
            "chatsessions"@
        } else if paths::has_part(lower, "emptywindowchatsessions"@) {
            "emptywindowchatsessions"@
        } else {
            "state.vscdb"@
        };
        let i = choose|i: int| 0 <= i < lower.len() && #[trigger] lower[i] == name;
        assert(vscode_storage(text::lowered(path[i])));
    }
    if exists|i: int| 0 <= i < path.len() && vscode_storage(text::lowered(#[trigger] path[i])) {
        let i = choose|i: int|
            0 <= i < path.len() && vscode_storage(text::lowered(#[trigger] path[i]));
        assert(lower[i] == text::lowered(path[i]));
    }
}

/// A path is a session file of VS Code just when its extension is `json` or
/// `jsonl`, in any case, and a part of it is a directory of chat sessions.
pub proof fn law_session_files_are_known_by_their_path(path: Seq<Seq<char>>)
    ensures
        roots::native_look(path) <==> paths::extension_of(path) is Some && ({
            let lower = text::ascii_lowered(paths::extension_of(path)->Some_0);
            lower == "json"@ || lower == "jsonl"@
        }) && (path.contains("chatSessions"@) || path.contains("emptyWindowChatSessions"@)
            || path.contains("transferredChatSessions"@)),
{
    reveal_strlit("json");
    reveal_strlit("jsonl");
    assert(text::ascii_lowered("json"@) =~= "json"@);
    assert(text::ascii_lowered("jsonl"@) =~= "jsonl"@);
    assert forall|name: Seq<char>| #[trigger] paths::has_part(path, name) == path.contains(name) by {
        if paths::has_part(path, name) {
            let i = choose|i: int| 0 <= i < path.len() && #[trigger] path[i] == name;
            assert(path[i] == name);
        }
    }
}

/// Whether a file below a root is looked at: not more than five levels below it,
/// with a name that ends like a JSON document or a log of lines, and a session file
/// or in Copilot's storage.
pub open spec fn looked_at(path: Seq<Seq<char>>, root: Seq<Seq<char>>) -> bool {
    &&& path.len() <= root.len() + 5
    &&& paths::name_of(path) is Some
    &&& text::ends(paths::name_of(path)->Some_0, ".json"@) || text::ends(
        paths::name_of(path)->Some_0,
        ".jsonl"@,
    )
    &&& roots::native_look(path) || roots::copilot_look(path)
}

proof fn lemma_walked(files: Seq<Seq<Seq<char>>>, root: Seq<Seq<char>>)
    ensures
        roots::walked_sessions(files, root) == files.filter(
            |path: Seq<Seq<char>>| looked_at(path, root),
        ),
    decreases files.len(),
{
    reveal(Seq::filter);
    if files.len() > 0 {
        lemma_walked(files.drop_last(), root);
        let before = roots::walked_sessions(files.drop_last(), root);
        assert(before + Seq::<Seq<Seq<char>>>::empty() =~= before);
        assert(before + seq![files.last()] =~= before.push(files.last()));
    }
}

/// The files of a root are itself where it is a file with the extension of a JSON
/// document or a log of lines that is a session file or in Copilot's storage, and
/// else those that a walk from it meets and that are looked at, in order.
pub proof fn law_a_root_has_the_files_below_it(root: Seq<Seq<char>>, disk: DiskView)
    ensures
        !disk.present(root) ==> roots::session_files(root, disk).len() == 0,
        disk.is_file(root) ==> roots::session_files(root, disk) == (if (paths::extension_of(root)
            == Some("json"@) || paths::extension_of(root) == Some("jsonl"@)) && (roots::native_look(
            root,
        ) || roots::copilot_look(root)) {
            seq![root]
        } else {
            Seq::empty()
        }),
        disk.present(root) && !disk.is_file(root) ==> roots::session_files(root, disk)
            == order::ordered::<FilePath>(
            disk.walked(root).filter(|path: Seq<Seq<char>>| looked_at(path, root)),
        ),
{
    lemma_walked(disk.walked(root), root);
}

/// Whether a path is the state database of a workspace in a storage: two levels
/// below it.
pub open spec fn in_workspace(path: Seq<Seq<char>>, storage: Seq<Seq<char>>) -> bool {
    exists|name: Seq<char>| path == #[trigger] storage.push(name).push("state.vscdb"@)
}

proof fn lemma_in_workspace(path: Seq<Seq<char>>, storage: Seq<Seq<char>>)
    ensures
        roots::workspace_database(path, storage) <==> in_workspace(path, storage),
{
    if roots::workspace_database(path, storage) {
        let name = path[storage.len() as int];
        assert forall|i: int| 0 <= i < storage.len() implies path[i] == storage[i] by {
            assert(path.take(storage.len() as int)[i] == path[i]);
        }
        assert(path =~= storage.push(name).push("state.vscdb"@));
    }
    if in_workspace(path, storage) {
        let name = choose|name: Seq<char>|
            path == #[trigger] storage.push(name).push("state.vscdb"@);
        assert(path.take(storage.len() as int) =~= storage);
    }
}

/// A state database of a root is one directly in it; of a `User` directory also
/// that of its global storage and those of its workspaces, and of a
/// `workspaceStorage` those of its workspaces.
pub proof fn law_databases_are_known_by_their_place(path: Seq<Seq<char>>, root: Seq<Seq<char>>)
    ensures
        roots::is_database(path, root) <==> path == paths::under(root, "state.vscdb"@) || (
        paths::name_of(root) == Some("User"@) && (path == paths::under(
            root,
            "globalStorage/state.vscdb"@,
        ) || in_workspace(path, paths::under(root, "workspaceStorage"@)))) || (paths::name_of(root)
            == Some("workspaceStorage"@) && in_workspace(path, root)),
{
    lemma_in_workspace(path, root);
    lemma_in_workspace(path, paths::under(root, "workspaceStorage"@));
}

proof fn lemma_databases(files: Seq<FileView>, root: Seq<Seq<char>>)
    ensures
        roots::databases_among(files, root) == files.map_values(
            |file: FileView| file.path,
        ).filter(|path: Seq<Seq<char>>| roots::is_database(path, root)),
    decreases files.len(),
{
    let all = files.map_values(|file: FileView| file.path);
    reveal(Seq::filter);
    if files.len() > 0 {
        lemma_databases(files.drop_last(), root);
        assert(files.drop_last().map_values(|file: FileView| file.path) =~= all.drop_last());
        let before = roots::databases_among(files.drop_last(), root);
        assert(before + Seq::<Seq<Seq<char>>>::empty() =~= before);
        assert(before + seq![files.last().path] =~= before.push(files.last().path));
    }
}

/// The databases of a root are itself where it is a file named `state.vscdb`, and
/// else those that are known to stand at a place of one, each once and in order.
pub proof fn law_a_root_has_the_databases_below_it(root: Seq<Seq<char>>, disk: DiskView)
    ensures
        disk.is_file(root) ==> roots::database_files(root, disk) == (if paths::name_of(root)
            == Some("state.vscdb"@) {
            seq![root]
        } else {
            Seq::empty()
        }),
        !disk.is_file(root) ==> roots::database_files(root, disk) == order::distinct::<FilePath>(
            disk.files.map_values(|file: FileView| file.path).filter(
                |path: Seq<Seq<char>>| roots::is_database(path, root),
            ),
        ),
{
    lemma_databases(disk.files, root);
}

/// The places of `User` directories below the user's own.
pub open spec fn user_tails() -> Seq<Seq<char>> {
    seq![
        ".config/Code/User"@,
        ".config/Code - Insiders/User"@,
        ".config/VSCodium/User"@,
        "Library/Application Support/Code/User"@,
        "Library/Application Support/Code - Insiders/User"@,
        "Library/Application Support/VSCodium/User"@,
    ]
}

/// The places of `User` directories below a directory of settings.
pub open spec fn product_tails() -> Seq<Seq<char>> {
    seq!["Code/User"@, "Code - Insiders/User"@, "VSCodium/User"@]
}

/// The places of the CLI below the user's own directory.
pub open spec fn cli_tails() -> Seq<Seq<char>> {
    seq![
        ".config/gh-copilot"@,
        ".config/gh/copilot"@,
        ".copilot/session-state"@,
        ".copilot/history-session-state"@,
    ]
}

/// Places below a directory.
pub open spec fn below(base: Seq<Seq<char>>, tails: Seq<Seq<char>>) -> Seq<Seq<Seq<char>>> {
    tails.map_values(|tail: Seq<char>| paths::under(base, tail))
}

/// Places below a directory that may be unknown.
pub open spec fn below_known(base: Option<Seq<Seq<char>>>, tails: Seq<Seq<char>>) -> Seq<
    Seq<Seq<char>>,
> {
    match base {
        Some(known) => below(known, tails),
        None => Seq::empty(),
    }
}

/// The default places are the `User` directories of each product on each platform,
/// those of Copilot Chat below them, and those of the CLI, each once and in order.
pub proof fn law_the_default_places(user: UserView)
    ensures
        ({
            let users = below_known(user.home, user_tails());
            let more = below_known(user.config, product_tails());
            &&& roots::linux_users(user) + roots::macos_users(user) == users
            &&& roots::windows_users(user) == more
            &&& roots::cli_dirs(user) == below_known(user.home, cli_tails())
            &&& roots::all_users(user) == order::distinct::<FilePath>(users + more)
            &&& roots::all_candidates(user) == order::distinct::<FilePath>(
                roots::all_users(user) + (users + more).map_values(
                    |path: Seq<Seq<char>>| paths::under(path, "globalStorage/github.copilot-chat"@),
                ) + below_known(user.home, cli_tails()),
            )
        }),
{
    let chat = |path: Seq<Seq<char>>| paths::under(path, "globalStorage/github.copilot-chat"@);
    let users = below_known(user.home, user_tails());
    let more = below_known(user.config, product_tails());
    assert(roots::linux_users(user) + roots::macos_users(user) =~= users);
    assert(roots::windows_users(user) =~= more);
    assert(roots::cli_dirs(user) =~= below_known(user.home, cli_tails()));
    assert(roots::linux_users(user) + roots::macos_users(user) + roots::windows_users(user)
        =~= users + more);
    assert(roots::all_users(user) + roots::chats_of(roots::linux_users(user)) + roots::chats_of(
        roots::macos_users(user),
    ) + roots::chats_of(roots::windows_users(user)) + roots::cli_dirs(user) =~= roots::all_users(
        user,
    ) + (users + more).map_values(chat) + below_known(user.home, cli_tails()));
}

/// The places of Copilot Chat below a directory of settings.
pub open spec fn chat_tails() -> Seq<Seq<char>> {
    seq![
        "Code/User/globalStorage/github.copilot-chat"@,
        "Code - Insiders/User/globalStorage/github.copilot-chat"@,
        "VSCodium/User/globalStorage/github.copilot-chat"@,
    ]
}

/// The places that a home directory may have on any platform.
pub open spec fn home_tails() -> Seq<Seq<char>> {
    user_tails() + seq![
        "AppData/Roaming/Code/User"@,
        "AppData/Roaming/Code - Insiders/User"@,
        "AppData/Roaming/VSCodium/User"@,
        ".config/Code/User/globalStorage/github.copilot-chat"@,
        ".config/Code - Insiders/User/globalStorage/github.copilot-chat"@,
        ".config/VSCodium/User/globalStorage/github.copilot-chat"@,
        "Library/Application Support/Code/User/globalStorage/github.copilot-chat"@,
        "Library/Application Support/Code - Insiders/User/globalStorage/github.copilot-chat"@,
        "Library/Application Support/VSCodium/User/globalStorage/github.copilot-chat"@,
        "AppData/Roaming/Code/User/globalStorage/github.copilot-chat"@,
        "AppData/Roaming/Code - Insiders/User/globalStorage/github.copilot-chat"@,
        "AppData/Roaming/VSCodium/User/globalStorage/github.copilot-chat"@,
    ] + cli_tails() + product_tails()
}

proof fn lemma_names()
    ensures
        ".config"@ != "Application Support"@,
        ".config"@ != "Roaming"@,
        ".config"@ != "Code"@,
        ".config"@ != "Code - Insiders"@,
        ".config"@ != "VSCodium"@,
        ".config"@ != "User"@,
        ".config"@ != "globalStorage"@,
        "Application Support"@ != "Code"@,
        "Application Support"@ != "Code - Insiders"@,
        "Application Support"@ != "VSCodium"@,
        "Application Support"@ != "User"@,
        "Application Support"@ != "globalStorage"@,
        "Roaming"@ != "Code"@,
        "Roaming"@ != "Code - Insiders"@,
        "Roaming"@ != "VSCodium"@,
        "Roaming"@ != "User"@,
        "Roaming"@ != "globalStorage"@,
        "User"@ != "Code"@,
        "User"@ != "Code - Insiders"@,
        "User"@ != "VSCodium"@,
        "User"@ != "globalStorage"@,
        "globalStorage"@ != "Code"@,
        "globalStorage"@ != "Code - Insiders"@,
        "globalStorage"@ != "VSCodium"@,
{
    reveal_strlit(".config");
    reveal_strlit("Application Support");
    reveal_strlit("Roaming");
    reveal_strlit("Code");
    reveal_strlit("Code - Insiders");
    reveal_strlit("VSCodium");
    reveal_strlit("User");
    reveal_strlit("globalStorage");
    assert(".config"@.len() == 7);
    assert("Application Support"@.len() == 19);
    assert("Roaming"@.len() == 7);
    assert("Code"@.len() == 4);
    assert("Code - Insiders"@.len() == 15);
    assert("VSCodium"@.len() == 8);
    assert("User"@.len() == 4);
    assert("globalStorage"@.len() == 13);
    assert(".config"@[0] == '.');
    assert("Roaming"@[0] == 'R');
    assert("Code"@[0] == 'C');
    assert("User"@[0] == 'U');
}

/// Where roots may be below a given path goes by its name: below a directory of
/// settings those of the products, below one of a product those of its user, below
/// a `User` directory its storages, below `globalStorage` none, and below any other
/// directory those that a home directory may have.
pub proof fn law_candidates_go_by_the_name(base: Seq<Seq<char>>, name: Seq<char>)
    requires
        paths::name_of(base) == Some(name) || (paths::name_of(base) is None && name.len() == 0),
    ensures
        name == ".config"@ ==> roots::candidates(base) == below(
            base,
            product_tails() + chat_tails() + seq!["gh-copilot"@, "gh/copilot"@],
        ),
        name == "Application Support"@ || (name == "Roaming"@ && paths::name_in(
            paths::parent_of(base),
        ) == Some("AppData"@)) ==> roots::candidates(base) == below(
            base,
            product_tails() + chat_tails(),
        ),
        name == "Code"@ || name == "Code - Insiders"@ || name == "VSCodium"@ ==> roots::candidates(
            base,
        ) == below(base, seq!["User"@, "User/globalStorage/github.copilot-chat"@]),
        name == "User"@ ==> roots::candidates(base) == below(
            base,
            seq!["globalStorage/github.copilot-chat"@, "workspaceStorage"@, "globalStorage"@],
        ),
        name == "globalStorage"@ ==> roots::candidates(base).len() == 0,
        name != ".config"@ && name != "Application Support"@ && !(name == "Roaming"@
            && paths::name_in(paths::parent_of(base)) == Some("AppData"@)) && name != "Code"@ && name
            != "Code - Insiders"@ && name != "VSCodium"@ && name != "User"@ && name
            != "globalStorage"@ ==> roots::candidates(base) == below(base, home_tails()),
{
    lemma_names();
    reveal_strlit(".config");
    reveal_strlit("Application Support");
    reveal_strlit("Code");
    reveal_strlit("Code - Insiders");
    reveal_strlit("VSCodium");
    reveal_strlit("User");
    reveal_strlit("globalStorage");
    reveal_strlit("Roaming");
    assert(roots::product_users(base) =~= below(base, product_tails()));
    assert(roots::product_chats(base) =~= below(base, chat_tails()));
    assert(roots::product_users(base) + roots::product_chats(base) =~= below(
        base,
        product_tails() + chat_tails(),
    ));
    assert(roots::product_users(base) + roots::product_chats(base) + seq![
        paths::under(base, "gh-copilot"@),
        paths::under(base, "gh/copilot"@),
    ] =~= below(base, product_tails() + chat_tails() + seq!["gh-copilot"@, "gh/copilot"@]));
    assert(below(base, seq!["User"@, "User/globalStorage/github.copilot-chat"@]) =~= seq![
        paths::under(base, "User"@),
        paths::under(base, "User/globalStorage/github.copilot-chat"@),
    ]);
    assert(below(
        base,
        seq!["globalStorage/github.copilot-chat"@, "workspaceStorage"@, "globalStorage"@],
    ) =~= seq![
        paths::under(base, "globalStorage/github.copilot-chat"@),
        paths::under(base, "workspaceStorage"@),
        paths::under(base, "globalStorage"@),
    ]);
    assert(roots::home_candidates(base) =~= below(base, home_tails()));
}

/// Of some candidates the roots are those that exist and are in a storage or a
/// `User` directory, each as often as it stands there and in order.
pub proof fn law_candidates_are_roots_where_they_exist(
    list: Seq<Seq<Seq<char>>>,
    disk: DiskView,
)
    ensures
        roots::rooted(list, disk) == list.filter(
            |path: Seq<Seq<char>>|
                disk.present(path) && (roots::copilot_look(path) || roots::vscode_look(path, disk)
                    || paths::name_of(path) == Some("User"@)),
        ),
    decreases list.len(),
{
    reveal(Seq::filter);
    if list.len() > 0 {
        law_candidates_are_roots_where_they_exist(list.drop_last(), disk);
        let before = roots::rooted(list.drop_last(), disk);
        assert(before + Seq::<Seq<Seq<char>>>::empty() =~= before);
        assert(before + seq![list.last()] =~= before.push(list.last()));
    }
}

/// Whether a given path is itself a root: it exists and is in a storage or one of a
/// workspace, or it has the name of a `User` directory or of a storage, or is a
/// state database.
pub open spec fn is_own_root(base: Seq<Seq<char>>, disk: DiskView) -> bool {
    let name = paths::name_of(base);
    ||| disk.present(base) && (roots::copilot_look(base) || roots::vscode_look(base, disk)
        || paths::name_in(paths::parent_of(base)) == Some("workspaceStorage"@))
    ||| name == Some("User"@) || name == Some("workspaceStorage"@) || name == Some(
        "chatSessions"@,
    ) || name == Some("globalStorage"@)
    ||| disk.is_file(base) && name == Some("state.vscdb"@)
}

/// Whether a path directly below a given one is a root: it exists and has a name
/// that belongs below the name of the given one.
pub open spec fn is_inner_root(base: Seq<Seq<char>>, tail: Seq<char>) -> bool {
    let name = paths::name_of(base);
    ||| tail == "chatSessions"@ && paths::name_in(paths::parent_of(base)) == Some(
        "workspaceStorage"@,
    )
    ||| (tail == "session-state"@ || tail == "history-session-state"@) && name == Some(".copilot"@)
    ||| (tail == "github.copilot-chat"@ || tail == "emptyWindowChatSessions"@) && name == Some(
        "globalStorage"@,
    )
    ||| tail == "copilot"@ && name == Some("gh"@)
}

/// A given path stands for itself where it is a root, for the roots directly below
/// it, and for those of the candidates that are roots, and for nothing else.
pub proof fn law_a_place_stands_for_its_storages(
    base: Seq<Seq<char>>,
    disk: DiskView,
    path: Seq<Seq<char>>,
)
    ensures
        roots::explicit_roots(base, disk).contains(path) <==> (path == base && is_own_root(
            base,
            disk,
        )) || (exists|tail: Seq<char>| #[trigger]
            is_inner_root(base, tail) && path == paths::under(base, tail) && disk.present(path))
            || (roots::candidates(base).contains(path) && disk.present(path) && (
        roots::copilot_look(path) || roots::vscode_look(path, disk) || paths::name_of(path) == Some(
            "User"@,
        ))),
{
    let own = roots::own_roots(base, disk);
    let inner = roots::inner_roots(base, disk);
    let rooted = roots::rooted(roots::candidates(base), disk);
    lemma_own(base, disk, path);
    lemma_inner(base, disk, path);
    lemma_rooted(roots::candidates(base), disk, path);
    lemma_contains_add(own, inner, path);
    lemma_contains_add(own + inner, rooted, path);
}

proof fn lemma_contains_add(
    a: Seq<Seq<Seq<char>>>,
    b: Seq<Seq<Seq<char>>>,
    path: Seq<Seq<char>>,
)
    ensures
        (a + b).contains(path) <==> a.contains(path) || b.contains(path),
{
    let all = a + b;
    if a.contains(path) {
        let i = choose|i: int| 0 <= i < a.len() && a[i] == path;
        assert(all[i] == path);
    }
    if b.contains(path) {
        let i = choose|i: int| 0 <= i < b.len() && b[i] == path;
        assert(all[a.len() + i] == path);
    }
    if all.contains(path) {
        let i = choose|i: int| 0 <= i < all.len() && all[i] == path;
        if i < a.len() {
            assert(a[i] == path);
        } else {
            assert(b[i - a.len()] == path);
        }
    }
}

proof fn lemma_only_if(condition: bool, base: Seq<Seq<char>>, path: Seq<Seq<char>>)
    ensures
        paths::only_if(condition, base).contains(path) <==> condition && path == base,
{
    if condition {
        assert(paths::only_if(condition, base)[0] == base);
    }
}

proof fn lemma_own(base: Seq<Seq<char>>, disk: DiskView, path: Seq<Seq<char>>)
    ensures
        roots::own_roots(base, disk).contains(path) <==> path == base && is_own_root(base, disk),
{
    let first = disk.present(base) && (roots::copilot_look(base) || roots::vscode_look(base, disk)
        || roots::is_workspace(base));
    let second = roots::named(base, "User"@);
    let third = (disk.is_file(base) && roots::named(base, "state.vscdb"@)) || roots::named(
        base,
        "workspaceStorage"@,
    ) || roots::named(base, "chatSessions"@) || roots::named(base, "globalStorage"@);
    lemma_only_if(first, base, path);
    lemma_only_if(second, base, path);
    lemma_only_if(third, base, path);
    lemma_contains_add(paths::only_if(first, base), paths::only_if(second, base), path);
    lemma_contains_add(
        paths::only_if(first, base) + paths::only_if(second, base),
        paths::only_if(third, base),
        path,
    );
}

proof fn lemma_inner(base: Seq<Seq<char>>, disk: DiskView, path: Seq<Seq<char>>)
    ensures
        roots::inner_roots(base, disk).contains(path) <==> exists|tail: Seq<char>| #[trigger]
            is_inner_root(base, tail) && path == paths::under(base, tail) && disk.present(path),
{
    let workspace = roots::is_workspace(base);
    let dot_copilot = roots::named(base, ".copilot"@);
    let global = roots::named(base, "globalStorage"@);
    let gh = roots::named(base, "gh"@);
    let a = roots::present_if(workspace, base, "chatSessions"@, disk);
    let b = roots::present_if(dot_copilot, base, "session-state"@, disk);
    let c = roots::present_if(dot_copilot, base, "history-session-state"@, disk);
    let d = roots::present_if(global, base, "github.copilot-chat"@, disk);
    let e = roots::present_if(global, base, "emptyWindowChatSessions"@, disk);
    let f = roots::present_if(gh, base, "copilot"@, disk);
    lemma_contains_add(a, b, path);
    lemma_contains_add(a + b, c, path);
    lemma_contains_add(a + b + c, d, path);
    lemma_contains_add(a + b + c + d, e, path);
    lemma_contains_add(a + b + c + d + e, f, path);
    lemma_present_if(workspace, base, "chatSessions"@, disk, path);
    lemma_present_if(dot_copilot, base, "session-state"@, disk, path);
    lemma_present_if(dot_copilot, base, "history-session-state"@, disk, path);
    lemma_present_if(global, base, "github.copilot-chat"@, disk, path);
    lemma_present_if(global, base, "emptyWindowChatSessions"@, disk, path);
    lemma_present_if(gh, base, "copilot"@, disk, path);
    assert(workspace ==> is_inner_root(base, "chatSessions"@));
    assert(dot_copilot ==> is_inner_root(base, "session-state"@));
    assert(dot_copilot ==> is_inner_root(base, "history-session-state"@));
    assert(global ==> is_inner_root(base, "github.copilot-chat"@));
    assert(global ==> is_inner_root(base, "emptyWindowChatSessions"@));
    assert(gh ==> is_inner_root(base, "copilot"@));
}

proof fn lemma_present_if(
    condition: bool,
    base: Seq<Seq<char>>,
    tail: Seq<char>,
    disk: DiskView,
    path: Seq<Seq<char>>,
)
    ensures
        roots::present_if(condition, base, tail, disk).contains(path) <==> condition && path
            == paths::under(base, tail) && disk.present(path),
{
    lemma_only_if(
        condition && disk.present(paths::under(base, tail)),
        paths::under(base, tail),
        path,
    );
}

proof fn lemma_rooted(list: Seq<Seq<Seq<char>>>, disk: DiskView, path: Seq<Seq<char>>)
    ensures
        roots::rooted(list, disk).contains(path) <==> list.contains(path) && roots::is_root(
            path,
            disk,
        ),
    decreases list.len(),
{
    if list.len() > 0 {
        let earlier = list.drop_last();
        let last = list.last();
        lemma_rooted(earlier, disk, path);
        lemma_only_if(roots::is_root(last, disk), last, path);
        lemma_contains_add(
            roots::rooted(earlier, disk),
            paths::only_if(roots::is_root(last, disk), last),
            path,
        );
        assert(earlier + seq![last] =~= list);
        lemma_contains_add(earlier, seq![last], path);
        assert(seq![last][0] == last);
    }
}

/// The roots of some given places are those that each stands for, in order and on
/// its machine.
pub proof fn law_given_places_are_taken_one_by_one(
    list: Seq<RootView>,
    next: RootView,
    disk: DiskView,
)
    ensures
        roots::given_roots(Seq::empty(), disk).len() == 0,
        roots::given_roots(list.push(next), disk) == roots::given_roots(list, disk)
            + roots::explicit_roots(next.path, disk).map_values(
            |path: Seq<Seq<char>>| RootView { path, origin: next.origin },
        ),
{
    assert(list.push(next).drop_last() =~= list);
    assert(list.push(next).last() == next);
    assert(scan::roots_at(roots::explicit_roots(next.path, disk), next.origin)
        =~= roots::explicit_roots(next.path, disk).map_values(
        |path: Seq<Seq<char>>| RootView { path, origin: next.origin },
    ));
}

/// With places given, the roots are those that they stand for. Without, the root is
/// the data directory where it exists and is in a storage, and else the roots are
/// the default places that exist. Each is taken once and in order.
pub proof fn law_the_roots_of_a_scan(context: ContextView, user: UserView, disk: DiskView)
    ensures
        context.scan_roots.len() > 0 ==> roots::roots_to_scan(context, user, disk)
            == order::distinct::<ScanRoot>(roots::given_roots(context.scan_roots, disk)),
        context.scan_roots.len() == 0 && disk.present(context.data_dir) && (roots::copilot_look(
            context.data_dir,
        ) || roots::vscode_look(context.data_dir, disk)) ==> roots::roots_to_scan(
            context,
            user,
            disk,
        ) == order::distinct::<ScanRoot>(
            seq![RootView { path: context.data_dir, origin: "local"@ }],
        ),
        context.scan_roots.len() == 0 && !(disk.present(context.data_dir) && (roots::copilot_look(
            context.data_dir,
        ) || roots::vscode_look(context.data_dir, disk))) ==> roots::roots_to_scan(
            context,
            user,
            disk,
        ) == order::distinct::<ScanRoot>(
            disk::present_ones(roots::all_candidates(user), disk).map_values(
                |path: Seq<Seq<char>>| RootView { path, origin: "local"@ },
            ),
        ),
{
    let list = disk::present_ones(roots::all_candidates(user), disk);
    assert(scan::roots_at(list, "local"@) =~= list.map_values(
        |path: Seq<Seq<char>>| RootView { path, origin: "local"@ },
    ));
}

/// The sources are those of the roots, one root after the other: its files and then
/// its databases that were not changed too long ago.
pub proof fn law_roots_are_taken_one_by_one(
    list: Seq<RootView>,
    next: RootView,
    since: Option<i64>,
    disk: DiskView,
)
    ensures
        roots::roots_sources(Seq::empty(), since, disk).len() == 0,
        roots::roots_sources(list.push(next), since, disk) == roots::roots_sources(
            list,
            since,
            disk,
        ) + (scan::fresh_sources(
            "copilot"@,
            next,
            roots::session_files(next.path, disk),
            DiscoveredSourceRole::PrimarySessionLog,
            since,
            disk,
        ) + scan::fresh_sources(
            "copilot"@,
            next,
            roots::database_files(next.path, disk),
            DiscoveredSourceRole::SqliteDatabase,
            since,
            disk,
        )),
{
    assert(list.push(next).drop_last() =~= list);
    assert(list.push(next).last() == next);
}

} // verus!
