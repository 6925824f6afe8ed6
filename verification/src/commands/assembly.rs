//! The assistant's directory in a workspace, assembled from those of its repos and
//! overlaid with that of its base.
use vstd::prelude::*;

use crate::assistant::{Assistant, AssistantView};
use crate::config::{config_dir, Environment};
use crate::error::{outcome, Error, ErrorView};
use crate::json::{
    alike, document_of, fields_shallow, fields_wf, file_of, lemma_alike_whole, lemma_array_view,
    lemma_fields_shallow, lemma_object_view, lemma_part_wf, lemma_put_shallow, lemma_put_wf,
    read_document, shallow, well_formed, whole, write_document, Fields, Json, JsonView,
    MAX_NESTING,
};
use crate::paths::{after_last, join_path, joined_path, prefix_file_name};
use crate::table::{
    entry, find_entry, lemma_entry_in, ordered, put, put_entry, put_law, sorted_law,
};
use crate::text::{
    cat, cat3, chars_of, occurs, occurs_at, own, same, sorted_of, sorted_set, strip_prefix, trim, trimmed,
};

verus! {

// ---------------------------------------------------------------------------
// Permissions
// ---------------------------------------------------------------------------

/// The strings among the items, in order.
pub open spec fn texts_of(items: Seq<JsonView>) -> Seq<Seq<char>>
    decreases items.len(),
{
    if items.len() == 0 {
        Seq::empty()
    } else {
        match items.last().text() {
            Some(s) => texts_of(items.drop_last()).push(s),
            None => texts_of(items.drop_last()),
        }
    }
}

/// One of the lists of permissions in a settings document.
pub open spec fn permission(j: JsonView, which: Seq<char>) -> Seq<Seq<char>> {
    match j.get("permissions"@) {
        Some(p) => match p.get(which) {
            Some(a) => texts_of(a.items()),
            None => Seq::empty(),
        },
        None => Seq::empty(),
    }
}

/// An array of strings.
pub open spec fn text_array(list: Seq<Seq<char>>) -> JsonView {
    JsonView::Array(Seq::new(list.len(), |i: int| JsonView::Text(list[i])))
}

/// The two lists of permissions, those that are not empty.
pub open spec fn permission_fields(allow: Seq<Seq<char>>, deny: Seq<Seq<char>>) -> Fields {
    let none: Fields = Seq::empty();
    let a = if allow.len() > 0 {
        put(none, "allow"@, text_array(allow))
    } else {
        none
    };
    if deny.len() > 0 {
        put(a, "deny"@, text_array(deny))
    } else {
        a
    }
}

/// A settings document: each list sorted, and nothing in it twice.
pub open spec fn settings_json(allow: Seq<Seq<char>>, deny: Seq<Seq<char>>) -> JsonView {
    JsonView::Object(
        seq![
            (
                "permissions"@,
                JsonView::Object(permission_fields(sorted_of(allow), sorted_of(deny))),
            ),
        ],
    )
}

/// Appends the strings among the items to a list.
fn push_texts(list: &mut Vec<String>, items: &Vec<Json>)
    ensures
        final(list).deep_view() == old(list).deep_view() + texts_of(items.deep_view()),
{
    let ghost g = list.deep_view();
    let ghost v = items.deep_view();
    assert(g + texts_of(v.take(0)) =~= g);
    for i in 0..items.len()
        invariant
            v == items.deep_view(),
            list.deep_view() == g + texts_of(v.take(i as int)),
    {
        assert(v.take(i + 1).drop_last() =~= v.take(i as int));
        assert(v.take(i + 1).last() == items@[i as int]@);
        if let Some(s) = items[i].text() {
            let ghost before = list.deep_view();
            list.push(s.clone());
            assert(list.deep_view() =~= before.push(s@));
            assert(g + texts_of(v.take(i as int)).push(s@) =~= before.push(s@));
        }
    }
    assert(v.take(v.len() as int) =~= v);
}

/// Appends one list of permissions of a settings document.
pub fn push_permission(list: &mut Vec<String>, value: &Json, which: &str)
    ensures
        final(list).deep_view() == old(list).deep_view() + permission(value@, which@),
{
    let ghost g = list.deep_view();
    assert(g + Seq::<Seq<char>>::empty() =~= g);
    if let Some(p) = value.get("permissions") {
        if let Some(a) = p.get(which) {
            if let Some(items) = a.items() {
                push_texts(list, items);
            }
        }
    }
}

/// Appends the permissions that a settings file grants and denies.
pub fn merge_settings_json(content: &str, allow: &mut Vec<String>, deny: &mut Vec<String>) -> (r:
    Result<(), Error>)
    ensures
        match document_of(content@) {
            Ok(j) => r is Ok && final(allow).deep_view() == old(allow).deep_view() + permission(
                j,
                "allow"@,
            ) && final(deny).deep_view() == old(deny).deep_view() + permission(j, "deny"@),
            Err(e) => r is Err && r->Err_0@ == e && final(allow)@ == old(allow)@ && final(deny)@
                == old(deny)@,
        },
{
    match read_document(content) {
        Ok(value) => {
            push_permission(allow, &value, "allow");
            push_permission(deny, &value, "deny");
            Ok(())
        },
        Err(e) => Err(e),
    }
}

/// An array of strings, as a document.
fn text_array_json(list: Vec<String>) -> (r: Json)
    ensures
        r@ == text_array(list.deep_view()),
        well_formed(r@),
        whole(r@),
        forall|d: nat| d > 0 ==> #[trigger] shallow(r@, d),
{
    let ghost g = list.deep_view();
    let mut items: Vec<Json> = Vec::new();
    for i in 0..list.len()
        invariant
            g == list.deep_view(),
            items@.len() == i,
            forall|j: int| 0 <= j < i ==> (#[trigger] items@[j])@ == JsonView::Text(g[j]),
    {
        items.push(Json::Text(list[i].clone()));
    }
    proof {
        lemma_array_view(items);
        assert(items.deep_view() =~= Seq::new(g.len(), |i: int| JsonView::Text(g[i])));
        reveal_with_fuel(well_formed, 2);
        reveal_with_fuel(shallow, 2);
        reveal_with_fuel(whole, 2);
    }
    Json::Array(items)
}

/// A settings document: each list sorted, and nothing in it twice.
pub fn settings_document(allow: &Vec<String>, deny: &Vec<String>) -> (r: Json)
    ensures
        r@ == settings_json(allow.deep_view(), deny.deep_view()),
        well_formed(r@),
        whole(r@),
        shallow(r@, MAX_NESTING as nat),
{
    let a = sorted_set(allow);
    let d = sorted_set(deny);
    let ghost sa = a.deep_view();
    let ghost sd = d.deep_view();
    let ghost none: Fields = Seq::empty();
    let mut permissions: Vec<(String, Json)> = Vec::new();
    assert(permissions.deep_view() =~= none);
    if a.len() > 0 {
        let j = text_array_json(a);
        assert(shallow(j@, 125));
        proof {
            put_law(none, "allow"@, j@, "deny"@);
        }
        put_entry(&mut permissions, own("allow"), j);
    }
    let ghost one = permissions.deep_view();
    if d.len() > 0 {
        let j = text_array_json(d);
        assert(shallow(j@, 125));
        proof {
            put_law(one, "deny"@, j@, "allow"@);
        }
        put_entry(&mut permissions, own("deny"), j);
    }
    let ghost two = permissions.deep_view();
    assert(two == permission_fields(sa, sd));
    assert(forall|i: int|
        0 <= i < one.len() ==> shallow((#[trigger] one[i]).1, 125) && whole(one[i].1) && well_formed(
            one[i].1,
        ));
    assert(forall|i: int|
        0 <= i < two.len() ==> shallow((#[trigger] two[i]).1, 125) && whole(two[i].1) && well_formed(
            two[i].1,
        ));
    proof {
        lemma_object_view(permissions);
    }
    let inner = Json::Object(permissions);
    assert(well_formed(inner@));
    assert(shallow(inner@, 126));
    assert(whole(inner@));
    let mut settings: Vec<(String, Json)> = Vec::new();
    settings.push((own("permissions"), inner));
    assert(settings.deep_view() =~= seq![("permissions"@, JsonView::Object(two))]);
    proof {
        lemma_object_view(settings);
    }
    Json::Object(settings)
}

/// The text of a settings file. Where it is written, it reads back with the same
/// permissions, sorted.
fn settings_file(allow: &Vec<String>, deny: &Vec<String>) -> (r: Result<String, Error>)
    ensures
        outcome(r) == file_of(settings_json(allow.deep_view(), deny.deep_view())),
        r is Ok,
        document_of(r->Ok_0@) is Ok,
        document_of(r->Ok_0@)->Ok_0 == settings_json(allow.deep_view(), deny.deep_view()),
{
    let j = settings_document(allow, deny);
    let ghost g = j@;
    let r = write_document(j);
    proof {
        lemma_alike_whole(g, document_of(r->Ok_0@)->Ok_0);
    }
    r
}

proof fn lemma_texts_of(list: Seq<Seq<char>>)
    ensures
        texts_of(text_array(list).items()) == list,
    decreases list.len(),
{
    let items = text_array(list).items();
    if list.len() > 0 {
        lemma_texts_of(list.drop_last());
        assert(items.drop_last() =~= text_array(list.drop_last()).items());
        assert(list =~= list.drop_last().push(list.last()));
    } else {
        assert(list =~= Seq::empty());
    }
}

/// The permissions of a settings document are those it was made from, each once
/// and in ascending order.
pub proof fn settings_law(allow: Seq<Seq<char>>, deny: Seq<Seq<char>>)
    ensures
        permission(settings_json(allow, deny), "allow"@) == sorted_of(allow),
        permission(settings_json(allow, deny), "deny"@) == sorted_of(deny),
{
    let a = sorted_of(allow);
    let d = sorted_of(deny);
    let f = permission_fields(a, d);
    let none: Fields = Seq::empty();
    reveal_strlit("allow");
    reveal_strlit("deny");
    assert("allow"@[0] != "deny"@[0]);
    put_law(none, "allow"@, text_array(a), "deny"@);
    put_law(none, "deny"@, text_array(d), "allow"@);
    put_law(put(none, "allow"@, text_array(a)), "deny"@, text_array(d), "allow"@);
    assert(entry(none, "allow"@) is None && entry(none, "deny"@) is None);
    assert(settings_json(allow, deny).get("permissions"@) == Some(JsonView::Object(f)));
    lemma_texts_of(a);
    lemma_texts_of(d);
    assert(a.len() == 0 ==> a =~= Seq::empty());
    assert(d.len() == 0 ==> d =~= Seq::empty());
}

// ---------------------------------------------------------------------------
// MCP servers
// ---------------------------------------------------------------------------

/// The servers that an MCP document defines.
pub open spec fn servers_of(j: JsonView) -> Fields {
    match j.get("mcpServers"@) {
        Some(s) => s.fields(),
        None => Seq::empty(),
    }
}

/// The name under which a server of `repo` is added.
pub open spec fn server_key(servers: Fields, repo: Seq<char>, name: Seq<char>) -> Seq<char> {
    if entry(servers, name) is Some {
        repo + "/"@ + name
    } else {
        name
    }
}

/// `servers` with those of `repo` added, in order: one whose name is taken is
/// added under the name of its repo.
pub open spec fn with_servers(servers: Fields, repo: Seq<char>, added: Fields) -> Fields
    decreases added.len(),
{
    if added.len() == 0 {
        servers
    } else {
        with_servers(
            put(servers, server_key(servers, repo, added[0].0), added[0].1),
            repo,
            added.skip(1),
        )
    }
}

/// `servers` with `added` put in, which replace those of the same name.
pub open spec fn with_overrides(servers: Fields, added: Fields) -> Fields
    decreases added.len(),
{
    if added.len() == 0 {
        servers
    } else {
        with_overrides(put(servers, added[0].0, added[0].1), added.skip(1))
    }
}

/// An MCP document.
pub open spec fn mcp_json(servers: Fields) -> JsonView {
    JsonView::Object(seq![("mcpServers"@, JsonView::Object(servers))])
}

proof fn lemma_servers_wf(j: JsonView)
    requires
        well_formed(j),
    ensures
        fields_wf(servers_of(j)),
{
    lemma_part_wf(j, "mcpServers"@);
    if j.get("mcpServers"@) is Some {
        lemma_part_wf(j.get("mcpServers"@)->0, "mcpServers"@);
    }
}

/// The servers of an MCP document.
pub fn servers_in(value: Json) -> (r: Vec<(String, Json)>)
    requires
        well_formed(value@),
    ensures
        r.deep_view() == servers_of(value@),
        fields_wf(r.deep_view()),
{
    proof {
        lemma_servers_wf(value@);
    }
    match value.into_field("mcpServers") {
        Some(s) => s.into_fields(),
        None => {
            let f: Vec<(String, Json)> = Vec::new();
            assert(f.deep_view() =~= Seq::<(Seq<char>, JsonView)>::empty());
            f
        },
    }
}

/// Adds the servers of one repo: one whose name is taken is added under the
/// name of the repo.
pub fn add_servers(servers: &mut Vec<(String, Json)>, repo: &str, added: Vec<(String, Json)>)
    requires
        fields_wf(old(servers).deep_view()),
        fields_wf(added.deep_view()),
    ensures
        final(servers).deep_view() == with_servers(
            old(servers).deep_view(),
            repo@,
            added.deep_view(),
        ),
        fields_wf(final(servers).deep_view()),
{
    let ghost all = with_servers(servers.deep_view(), repo@, added.deep_view());
    let mut rest = added;
    while rest.len() > 0
        invariant
            fields_wf(servers.deep_view()),
            fields_wf(rest.deep_view()),
            all == with_servers(servers.deep_view(), repo@, rest.deep_view()),
        decreases rest@.len(),
    {
        let ghost f = rest.deep_view();
        let ghost s = servers.deep_view();
        let (name, config) = rest.remove(0);
        assert(f[0] == (name@, config@));
        assert(rest.deep_view() =~= f.skip(1));
        assert forall|i: int, j: int| 0 <= i < j < f.skip(1).len() implies crate::text::less(
            (#[trigger] f.skip(1)[i]).0,
            (#[trigger] f.skip(1)[j]).0,
        ) by {
            assert(f.skip(1)[i] == f[i + 1] && f.skip(1)[j] == f[j + 1]);
        }
        assert forall|i: int| 0 <= i < f.skip(1).len() implies well_formed(
            (#[trigger] f.skip(1)[i]).1,
        ) by {
            assert(f.skip(1)[i] == f[i + 1]);
        }
        let key = match find_entry(servers, name.as_str()) {
            Some(_) => cat3(repo, "/", name.as_str()),
            None => name,
        };
        proof {
            lemma_put_wf(s, key@, config@);
        }
        put_entry(servers, key, config);
    }
    assert(rest.deep_view().len() == 0);
}

/// Puts servers in, which replace those of the same name.
pub fn override_servers(servers: &mut Vec<(String, Json)>, added: Vec<(String, Json)>)
    requires
        fields_wf(old(servers).deep_view()),
        fields_wf(added.deep_view()),
    ensures
        final(servers).deep_view() == with_overrides(old(servers).deep_view(), added.deep_view()),
        fields_wf(final(servers).deep_view()),
{
    let ghost all = with_overrides(servers.deep_view(), added.deep_view());
    let mut rest = added;
    while rest.len() > 0
        invariant
            fields_wf(servers.deep_view()),
            fields_wf(rest.deep_view()),
            all == with_overrides(servers.deep_view(), rest.deep_view()),
        decreases rest@.len(),
    {
        let ghost f = rest.deep_view();
        let (name, config) = rest.remove(0);
        assert(f[0] == (name@, config@));
        assert(rest.deep_view() =~= f.skip(1));
        assert forall|i: int, j: int| 0 <= i < j < f.skip(1).len() implies crate::text::less(
            (#[trigger] f.skip(1)[i]).0,
            (#[trigger] f.skip(1)[j]).0,
        ) by {
            assert(f.skip(1)[i] == f[i + 1] && f.skip(1)[j] == f[j + 1]);
        }
        assert forall|i: int| 0 <= i < f.skip(1).len() implies well_formed(
            (#[trigger] f.skip(1)[i]).1,
        ) by {
            assert(f.skip(1)[i] == f[i + 1]);
        }
        proof {
            lemma_put_wf(servers.deep_view(), name@, config@);
        }
        put_entry(servers, name, config);
    }
    assert(rest.deep_view().len() == 0);
}

/// Adds the servers that the MCP file of a repo defines.
pub fn merge_mcp_json(content: &str, repo_name: &str, servers: &mut Vec<(String, Json)>) -> (r:
    Result<(), Error>)
    requires
        fields_wf(old(servers).deep_view()),
    ensures
        fields_wf(final(servers).deep_view()),
        match document_of(content@) {
            Ok(j) => r is Ok && final(servers).deep_view() == with_servers(
                old(servers).deep_view(),
                repo_name@,
                servers_of(j),
            ),
            Err(e) => r is Err && r->Err_0@ == e && final(servers).deep_view() == old(
                servers,
            ).deep_view(),
        },
{
    match read_document(content) {
        Ok(value) => {
            let added = servers_in(value);
            add_servers(servers, repo_name, added);
            Ok(())
        },
        Err(e) => Err(e),
    }
}

/// An MCP document.
pub fn mcp_document(servers: Vec<(String, Json)>) -> (r: Json)
    requires
        fields_wf(servers.deep_view()),
    ensures
        r@ == mcp_json(servers.deep_view()),
        well_formed(r@),
{
    let ghost g = servers.deep_view();
    proof {
        lemma_object_view(servers);
    }
    let inner = Json::Object(servers);
    let mut mcp: Vec<(String, Json)> = Vec::new();
    mcp.push((own("mcpServers"), inner));
    assert(mcp.deep_view() =~= seq![("mcpServers"@, JsonView::Object(g))]);
    proof {
        lemma_object_view(mcp);
        reveal_with_fuel(well_formed, 2);
    }
    Json::Object(mcp)
}

/// The text of an MCP file.
fn mcp_file(servers: Vec<(String, Json)>) -> (r: Result<String, Error>)
    requires
        fields_wf(servers.deep_view()),
    ensures
        r is Ok,
        outcome(r) == file_of(mcp_json(servers.deep_view())),
        fields_shallow(servers.deep_view(), 125) ==> document_of(r->Ok_0@) is Ok && alike(
            mcp_json(servers.deep_view()),
            document_of(r->Ok_0@)->Ok_0,
        ),
{
    let ghost f = servers.deep_view();
    let doc = mcp_document(servers);
    proof {
        if fields_shallow(f, 125) {
            reveal_with_fuel(shallow, 3);
            assert(shallow(JsonView::Object(f), 126));
            assert(shallow(doc@, MAX_NESTING as nat));
        }
    }
    write_document(doc)
}

/// The servers of a document that could be read can be read again.
proof fn lemma_servers_shallow(j: JsonView)
    requires
        well_formed(j),
        shallow(j, MAX_NESTING as nat),
    ensures
        fields_shallow(servers_of(j), 125),
{
    if j.get("mcpServers"@) is Some {
        let f = j->Object_0;
        lemma_fields_shallow(f, 126);
        lemma_entry_in(f, "mcpServers"@);
        let i = choose|i: int|
            0 <= i < f.len() && #[trigger] f[i] == ("mcpServers"@, entry(f, "mcpServers"@)->0);
        assert(shallow(f[i].1, 126));
        if f[i].1 is Object {
            lemma_fields_shallow(f[i].1->Object_0, 125);
        }
    }
}

/// Servers stay nested no deeper when others replace them.
proof fn lemma_overrides_shallow(servers: Fields, added: Fields)
    requires
        ordered(servers),
        fields_shallow(servers, 125),
        fields_shallow(added, 125),
    ensures
        fields_shallow(with_overrides(servers, added), 125),
    decreases added.len(),
{
    if added.len() > 0 {
        lemma_put_shallow(servers, added[0].0, added[0].1, 125);
        put_law(servers, added[0].0, added[0].1, added[0].0);
        let t = added.skip(1);
        assert(forall|i: int| 0 <= i < t.len() ==> #[trigger] t[i] == added[i + 1]);
        lemma_overrides_shallow(put(servers, added[0].0, added[0].1), t);
    }
}

/// The servers that are read back from an MCP file are alike to those written.
proof fn lemma_mcp_back(servers: Fields, read: JsonView)
    requires
        alike(mcp_json(servers), read),
    ensures
        alike(JsonView::Object(servers), JsonView::Object(servers_of(read))),
        whole(JsonView::Object(servers)) ==> servers_of(read) == servers,
{
    let f = mcp_json(servers)->Object_0;
    assert(f[0] == ("mcpServers"@, JsonView::Object(servers)));
    let g = read->Object_0;
    assert(g[0].0 == "mcpServers"@ && alike(JsonView::Object(servers), g[0].1));
    assert(entry(g, "mcpServers"@) == Some(g[0].1));
    if whole(JsonView::Object(servers)) {
        lemma_alike_whole(JsonView::Object(servers), g[0].1);
    }
}

/// A server of the base replaces the one of the same name, and every other
/// server stays.
pub proof fn override_law(servers: Fields, added: Fields, key: Seq<char>)
    requires
        ordered(servers),
        ordered(added),
    ensures
        ordered(with_overrides(servers, added)),
        entry(with_overrides(servers, added), key) == (match entry(added, key) {
            Some(v) => Some(v),
            None => entry(servers, key),
        }),
    decreases added.len(),
{
    if added.len() > 0 {
        let t = added.skip(1);
        assert forall|i: int, j: int| 0 <= i < j < t.len() implies crate::text::less(
            (#[trigger] t[i]).0,
            (#[trigger] t[j]).0,
        ) by {
            assert(t[i] == added[i + 1] && t[j] == added[j + 1]);
        }
        put_law(servers, added[0].0, added[0].1, key);
        override_law(put(servers, added[0].0, added[0].1), t, key);
        if added[0].0 == key && entry(t, key) is Some {
            lemma_entry_in(t, key);
            let i = choose|i: int| 0 <= i < t.len() && #[trigger] t[i] == (key, entry(t, key)->0);
            assert(t[i] == added[i + 1]);
            assert(crate::text::less(added[0].0, added[i + 1].0));
            crate::text::less_irreflexive(key);
        }
    }
}

/// A server that is there keeps its name when a repo adds its own, unless a
/// name of the form `<repo>/<server>` is taken over.
pub proof fn kept_server_law(servers: Fields, repo: Seq<char>, added: Fields, key: Seq<char>)
    requires
        ordered(servers),
        entry(servers, key) is Some,
        forall|n: Seq<char>| key != #[trigger] (repo + "/"@ + n),
    ensures
        entry(with_servers(servers, repo, added), key) == entry(servers, key),
    decreases added.len(),
{
    if added.len() > 0 {
        let n = added[0].0;
        let k = server_key(servers, repo, n);
        if entry(servers, n) is Some {
            assert(k == repo + "/"@ + n);
        }
        put_law(servers, k, added[0].1, key);
        kept_server_law(put(servers, k, added[0].1), repo, added.skip(1), key);
    }
}

proof fn lemma_kept_entry(servers: Fields, repo: Seq<char>, added: Fields, name: Seq<char>)
    requires
        ordered(servers),
        entry(servers, repo + "/"@ + name) is Some,
        entry(added, name) is None,
    ensures
        entry(with_servers(servers, repo, added), repo + "/"@ + name) == entry(
            servers,
            repo + "/"@ + name,
        ),
    decreases added.len(),
{
    let full = repo + "/"@ + name;
    if added.len() > 0 {
        let n = added[0].0;
        let k = server_key(servers, repo, n);
        if k == full {
            let m = (repo + "/"@).len() as int;
            assert(full.skip(m) =~= name);
            assert((repo + "/"@ + n).skip(m) =~= n);
        }
        put_law(servers, k, added[0].1, full);
        lemma_kept_entry(put(servers, k, added[0].1), repo, added.skip(1), name);
    }
}

/// A server that a repo adds is there afterwards: under the name of its repo
/// where its own name was taken before, and else under its own name, unless
/// that name itself has the form `<repo>/<server>`.
pub proof fn added_server_law(servers: Fields, repo: Seq<char>, added: Fields, name: Seq<char>)
    requires
        ordered(servers),
        ordered(added),
        entry(added, name) is Some,
    ensures
        entry(servers, name) is Some ==> entry(
            with_servers(servers, repo, added),
            repo + "/"@ + name,
        ) == entry(added, name),
        entry(servers, name) is None && (forall|n: Seq<char>| name != #[trigger] (repo + "/"@ + n))
            ==> entry(with_servers(servers, repo, added), name) == entry(added, name),
    decreases added.len(),
{
    let n = added[0].0;
    let v = added[0].1;
    let t = added.skip(1);
    let k = server_key(servers, repo, n);
    let next = put(servers, k, v);
    assert forall|i: int, j: int| 0 <= i < j < t.len() implies crate::text::less(
        (#[trigger] t[i]).0,
        (#[trigger] t[j]).0,
    ) by {
        assert(t[i] == added[i + 1] && t[j] == added[j + 1]);
    }
    put_law(servers, k, v, name);
    if n == name {
        if entry(t, name) is Some {
            lemma_entry_in(t, name);
            let i = choose|i: int| 0 <= i < t.len() && #[trigger] t[i] == (name, entry(t, name)->0);
            assert(t[i] == added[i + 1]);
            assert(crate::text::less(added[0].0, added[i + 1].0));
            crate::text::less_irreflexive(name);
        }
        if entry(servers, name) is Some {
            lemma_kept_entry(next, repo, t, name);
        } else if forall|n: Seq<char>| name != #[trigger] (repo + "/"@ + n) {
            kept_server_law(next, repo, t, name);
        }
    } else {
        if k == name && entry(servers, n) is Some {
            assert(name == repo + "/"@ + n);
        }
        added_server_law(next, repo, t, name);
    }
}

// ---------------------------------------------------------------------------
// Collecting the entries of the repos
// ---------------------------------------------------------------------------

/// What a file of the assistant's directory is, by its path there.
#[derive(Debug, Clone, Copy, PartialEq, Eq, Structural)]
pub enum Part {
    Guide,
    Settings,
    Mcp,
    Other,
}

/// What a file of the assistant's directory is, by its path there.
pub open spec fn part(who: AssistantView, rel: Seq<char>) -> Part {
    if rel == who.guide {
        Part::Guide
    } else if rel == "settings.local.json"@ {
        Part::Settings
    } else if rel == "mcp.json"@ {
        Part::Mcp
    } else {
        Part::Other
    }
}

/// What a file of the assistant's directory is, by its path there.
pub fn part_of(who: &Assistant, rel: &str) -> (r: Part)
    ensures
        r == part(who@, rel@),
{
    if same(rel, who.guide.as_str()) {
        Part::Guide
    } else if same(rel, "settings.local.json") {
        Part::Settings
    } else if same(rel, "mcp.json") {
        Part::Mcp
    } else {
        Part::Other
    }
}

/// Where a file of `repo` goes: skills and agents have a directory for each
/// repo, every other file keeps its place.
pub open spec fn placed(repo: Seq<char>, rel: Seq<char>) -> Seq<char> {
    if "skills/"@.is_prefix_of(rel) {
        "skills/"@ + repo + "/"@ + rel.skip("skills/"@.len() as int)
    } else if "agents/"@.is_prefix_of(rel) {
        "agents/"@ + repo + "/"@ + rel.skip("agents/"@.len() as int)
    } else {
        rel
    }
}

/// Where a file of `repo` goes.
pub fn place(repo: &str, rel: &str) -> (r: String)
    ensures
        r@ == placed(repo@, rel@),
{
    if let Some(rest) = strip_prefix(rel, "skills/") {
        let dir = cat3("skills/", repo, "/");
        cat(dir.as_str(), rest.as_str())
    } else if let Some(rest) = strip_prefix(rel, "agents/") {
        let dir = cat3("agents/", repo, "/");
        cat(dir.as_str(), rest.as_str())
    } else {
        own(rel)
    }
}

/// What the assistant's directories of the repos hold together.
pub struct Assembly {
    pub allow: Vec<String>,
    pub deny: Vec<String>,
    /// The MCP servers by name, ascending.
    pub servers: Vec<(String, Json)>,
    /// Every other file by its place, ascending: the repos that have it, and
    /// where each has it.
    pub files: Vec<(String, Vec<(String, String)>)>,
}

/// What an [`Assembly`] holds.
#[verifier::ext_equal]
pub struct AssemblyView {
    pub allow: Seq<Seq<char>>,
    pub deny: Seq<Seq<char>>,
    pub servers: Fields,
    pub files: Seq<(Seq<char>, Seq<(Seq<char>, Seq<char>)>)>,
}

impl View for Assembly {
    type V = AssemblyView;

    open spec fn view(&self) -> AssemblyView {
        AssemblyView {
            allow: self.allow.deep_view(),
            deny: self.deny.deep_view(),
            servers: self.servers.deep_view(),
            files: self.files.deep_view(),
        }
    }
}

impl AssemblyView {
    /// The repos that have a file at `place`, and where.
    pub open spec fn sources(self, place: Seq<char>) -> Seq<(Seq<char>, Seq<char>)> {
        match entry(self.files, place) {
            Some(s) => s,
            None => Seq::empty(),
        }
    }

    /// With one more file of `repo`: `rel` is its path in the assistant's
    /// directory, `path` is where it lies, and `content` what it holds.
    pub open spec fn with_entry(
        self,
        who: AssistantView,
        repo: Seq<char>,
        rel: Seq<char>,
        path: Seq<char>,
        content: Seq<char>,
    ) -> Result<AssemblyView, ErrorView> {
        match part(who, rel) {
            Part::Guide => Ok(self),
            Part::Settings => match document_of(content) {
                Ok(j) => Ok(
                    AssemblyView {
                        allow: self.allow + permission(j, "allow"@),
                        deny: self.deny + permission(j, "deny"@),
                        ..self
                    },
                ),
                Err(e) => Err(e),
            },
            Part::Mcp => match document_of(content) {
                Ok(j) => Ok(
                    AssemblyView {
                        servers: with_servers(self.servers, repo, servers_of(j)),
                        ..self
                    },
                ),
                Err(e) => Err(e),
            },
            Part::Other => Ok(
                AssemblyView {
                    files: put(
                        self.files,
                        placed(repo, rel),
                        self.sources(placed(repo, rel)).push((repo, path)),
                    ),
                    ..self
                },
            ),
        }
    }
}

impl Assembly {
    /// The tables are in order, and the servers are well formed.
    pub open spec fn wf(&self) -> bool {
        fields_wf(self@.servers) && ordered(self@.files)
    }

    /// Of no repo.
    pub fn new() -> (r: Assembly)
        ensures
            r.wf(),
            r@ == (AssemblyView {
                allow: Seq::empty(),
                deny: Seq::empty(),
                servers: Seq::empty(),
                files: Seq::empty(),
            }),
    {
        let a = Assembly {
            allow: Vec::new(),
            deny: Vec::new(),
            servers: Vec::new(),
            files: Vec::new(),
        };
        assert(a@ =~= AssemblyView {
            allow: Seq::empty(),
            deny: Seq::empty(),
            servers: Seq::empty(),
            files: Seq::empty(),
        });
        a
    }

    /// Adds a file of `repo_name`: `rel` is its path in the assistant's
    /// directory, `path` is where it lies, and `content` what it holds, which only the
    /// settings and the MCP file need.
    pub fn collect_claude_entry(
        &mut self,
        who: &Assistant,
        repo_name: &str,
        rel: &str,
        path: &str,
        content: &str,
    ) -> (r: Result<(), Error>)
        requires
            old(self).wf(),
        ensures
            final(self).wf(),
            match old(self)@.with_entry(who@, repo_name@, rel@, path@, content@) {
                Ok(a) => r is Ok && final(self)@ == a,
                Err(e) => r is Err && r->Err_0@ == e && final(self)@ == old(self)@,
            },
    {
        match part_of(who, rel) {
            Part::Guide => Ok(()),
            Part::Settings => merge_settings_json(content, &mut self.allow, &mut self.deny),
            Part::Mcp => merge_mcp_json(content, repo_name, &mut self.servers),
            Part::Other => {
                let to = place(repo_name, rel);
                let ghost g = self@;
                let mut sources: Vec<(String, String)> = match find_entry(
                    &self.files,
                    to.as_str(),
                ) {
                    Some(i) => copy_pairs(&self.files[i].1),
                    None => Vec::new(),
                };
                assert(sources.deep_view() =~= g.sources(to@));
                let ghost before = sources.deep_view();
                sources.push((own(repo_name), own(path)));
                assert(sources.deep_view() =~= before.push((repo_name@, path@)));
                proof {
                    put_law(g.files, to@, sources.deep_view(), to@);
                }
                put_entry(&mut self.files, to, sources);
                Ok(())
            },
        }
    }
}

/// A copy of a list of pairs.
fn copy_pairs(list: &Vec<(String, String)>) -> (r: Vec<(String, String)>)
    ensures
        r.deep_view() == list.deep_view(),
{
    let mut out: Vec<(String, String)> = Vec::new();
    for i in 0..list.len()
        invariant
            out@.len() == i,
            forall|j: int| 0 <= j < i ==> (#[trigger] out@[j]).0@ == list@[j].0@ && out@[j].1@
                == list@[j].1@,
    {
        out.push((list[i].0.clone(), list[i].1.clone()));
    }
    assert(out.deep_view() =~= list.deep_view());
    out
}

/// Skills of two repos never share a place, nor do agents, where no repo's name
/// holds a slash.
pub proof fn namespaces_apart(a: Seq<char>, b: Seq<char>, x: Seq<char>, y: Seq<char>)
    requires
        a != b,
        !a.contains('/'),
        !b.contains('/'),
    ensures
        placed(a, "skills/"@ + x) != placed(b, "skills/"@ + y),
        placed(a, "agents/"@ + x) != placed(b, "agents/"@ + y),
{
    reveal_strlit("skills/");
    reveal_strlit("agents/");
    reveal_strlit("/");
    let s = "skills/"@;
    let g = "agents/"@;
    assert(s.is_prefix_of(s + x) && s.is_prefix_of(s + y));
    assert(g.is_prefix_of(g + x) && g.is_prefix_of(g + y));
    assert((g + x)[0] == 'a' && (g + y)[0] == 'a' && s[0] == 's');
    assert(!s.is_prefix_of(g + x) && !s.is_prefix_of(g + y));
    assert((s + x).skip(7) =~= x && (s + y).skip(7) =~= y);
    assert((g + x).skip(7) =~= x && (g + y).skip(7) =~= y);
    lemma_apart(s, a, b, x, y);
    lemma_apart(g, a, b, x, y);
}

proof fn lemma_apart(d: Seq<char>, a: Seq<char>, b: Seq<char>, x: Seq<char>, y: Seq<char>)
    requires
        a != b,
        !a.contains('/'),
        !b.contains('/'),
    ensures
        d + a + "/"@ + x != d + b + "/"@ + y,
{
    reveal_strlit("/");
    let p = d + a + "/"@ + x;
    let q = d + b + "/"@ + y;
    if p == q {
        let n = d.len() as int;
        if a.len() < b.len() {
            assert(p[n + a.len()] == '/');
            assert(q[n + a.len()] == b[a.len() as int]);
            assert(b.contains('/'));
        } else if b.len() < a.len() {
            assert(q[n + b.len()] == '/');
            assert(p[n + b.len()] == a[b.len() as int]);
            assert(a.contains('/'));
        } else {
            assert forall|i: int| 0 <= i < a.len() implies a[i] == b[i] by {
                assert(p[n + i] == a[i] && q[n + i] == b[i]);
            }
            assert(a =~= b);
        }
    }
}

// ---------------------------------------------------------------------------
// The workspace's own instructions
// ---------------------------------------------------------------------------

/// Where a repo keeps its instructions, relative to the workspace.
pub open spec fn guide_of(
    who: AssistantView,
    repo: Seq<char>,
    at_top: bool,
    in_claude_dir: bool,
) -> Option<Seq<char>> {
    if at_top {
        Some(repo + "/"@ + who.guide)
    } else if in_claude_dir {
        Some(repo + "/"@ + who.dir + "/"@ + who.guide)
    } else {
        None
    }
}

/// Where a repo keeps its instructions, relative to the workspace, by whether it
/// has them at its top and in its directory for the assistant.
pub fn guide(who: &Assistant, repo: &str, at_top: bool, in_claude_dir: bool) -> (r: Option<String>)
    ensures
        r.deep_view() == guide_of(who@, repo@, at_top, in_claude_dir),
{
    if at_top {
        Some(cat3(repo, "/", who.guide.as_str()))
    } else if in_claude_dir {
        let dir = cat3(repo, "/", who.dir.as_str());
        Some(cat3(dir.as_str(), "/", who.guide.as_str()))
    } else {
        None
    }
}

/// How the workspace's own instructions begin.
pub const GUIDE_INTRO: &'static str =
    "# Workspace\n\nThis directory groups several projects. Before working in a project, read its own instructions:\n\n";

/// The workspace's own instructions: where to find those of each project.
pub open spec fn workspace_guide_of(guides: Seq<Seq<char>>) -> Seq<char>
    decreases guides.len(),
{
    if guides.len() == 0 {
        GUIDE_INTRO@
    } else {
        workspace_guide_of(guides.drop_last()) + ("- `"@ + guides.last() + "`\n"@)
    }
}

/// The workspace's own instructions: where to find those of each project.
pub fn workspace_guide(guides: &Vec<String>) -> (r: String)
    ensures
        r@ == workspace_guide_of(guides.deep_view()),
{
    let ghost g = guides.deep_view();
    let mut s = own(GUIDE_INTRO);
    for i in 0..guides.len()
        invariant
            g == guides.deep_view(),
            s@ == workspace_guide_of(g.take(i as int)),
    {
        let line = cat3("- `", guides[i].as_str(), "`\n");
        assert(g.take(i + 1).drop_last() =~= g.take(i as int));
        s = cat(s.as_str(), line.as_str());
    }
    assert(g.take(g.len() as int) =~= g);
    s
}

// ---------------------------------------------------------------------------
// Writing the workspace's directory
// ---------------------------------------------------------------------------

/// Something to do with a file.
#[derive(Debug)]
pub enum FileAction {
    Write { path: String, text: String },
    Copy { from: String, to: String },
}

/// What a [`FileAction`] stands for.
pub enum FileActionView {
    Write { path: Seq<char>, text: Seq<char> },
    Copy { from: Seq<char>, to: Seq<char> },
}

impl DeepView for FileAction {
    type V = FileActionView;

    open spec fn deep_view(&self) -> FileActionView {
        match self {
            FileAction::Write { path, text } => FileActionView::Write { path: path@, text: text@ },
            FileAction::Copy { from, to } => FileActionView::Copy { from: from@, to: to@ },
        }
    }
}

/// `path` with the name of a repo and a dot before the name of the file.
pub open spec fn prefixed(path: Seq<char>, repo: Seq<char>) -> Seq<char> {
    let n = after_last(path, '/') as int;
    path.take(n) + repo + seq!['.'] + path.skip(n)
}

/// Each of the copies of a file that several repos have, under the name of its
/// repo.
pub open spec fn prefixed_copies(
    dest: Seq<char>,
    sources: Seq<(Seq<char>, Seq<char>)>,
) -> Seq<FileActionView> {
    Seq::new(
        sources.len(),
        |i: int| FileActionView::Copy { from: sources[i].1, to: prefixed(dest, sources[i].0) },
    )
}

/// The copies of one file: as it is where one repo has it, else prefixed.
pub open spec fn copies_of(
    dir: Seq<char>,
    file: (Seq<char>, Seq<(Seq<char>, Seq<char>)>),
) -> Seq<FileActionView> {
    let dest = joined_path(dir, file.0);
    if file.1.len() == 1 {
        seq![FileActionView::Copy { from: file.1[0].1, to: dest }]
    } else {
        prefixed_copies(dest, file.1)
    }
}

/// The copies of all the files.
pub open spec fn all_copies(
    dir: Seq<char>,
    files: Seq<(Seq<char>, Seq<(Seq<char>, Seq<char>)>)>,
) -> Seq<FileActionView>
    decreases files.len(),
{
    if files.len() == 0 {
        Seq::empty()
    } else {
        all_copies(dir, files.drop_last()) + copies_of(dir, files.last())
    }
}

/// The settings file, unless nothing is granted or denied.
pub open spec fn settings_writes(dir: Seq<char>, a: AssemblyView) -> Result<
    Seq<FileActionView>,
    ErrorView,
> {
    if a.allow.len() == 0 && a.deny.len() == 0 {
        Ok(Seq::empty())
    } else {
        match file_of(settings_json(a.allow, a.deny)) {
            Ok(text) => Ok(
                seq![
                    FileActionView::Write { path: joined_path(dir, "settings.local.json"@), text },
                ],
            ),
            Err(e) => Err(e),
        }
    }
}

/// The MCP file, unless there are no servers.
pub open spec fn mcp_writes(dir: Seq<char>, a: AssemblyView) -> Result<
    Seq<FileActionView>,
    ErrorView,
> {
    if a.servers.len() == 0 {
        Ok(Seq::empty())
    } else {
        match file_of(mcp_json(a.servers)) {
            Ok(text) => Ok(
                seq![FileActionView::Write { path: joined_path(dir, "mcp.json"@), text }],
            ),
            Err(e) => Err(e),
        }
    }
}

/// Everything to be done in the assistant's directory `dir` of a workspace.
pub open spec fn merge_plan(
    who: AssistantView,
    dir: Seq<char>,
    guides: Seq<Seq<char>>,
    a: AssemblyView,
) -> Result<Seq<FileActionView>, ErrorView> {
    match (settings_writes(dir, a), mcp_writes(dir, a)) {
        (Err(e), _) => Err(e),
        (_, Err(e)) => Err(e),
        (Ok(s), Ok(m)) => Ok(
            seq![
                FileActionView::Write {
                    path: joined_path(dir, who.guide),
                    text: workspace_guide_of(guides),
                },
            ] + s + m + all_copies(dir, a.files),
        ),
    }
}

/// The copies of a file that two repos have do not replace each other.
pub proof fn copies_apart(path: Seq<char>, a: Seq<char>, b: Seq<char>)
    requires
        a != b,
    ensures
        prefixed(path, a) != prefixed(path, b),
{
    let n = after_last(path, '/') as int;
    let x = prefixed(path, a);
    let y = prefixed(path, b);
    if x == y {
        assert(x.len() == path.take(n).len() + a.len() + 1 + path.skip(n).len());
        assert(y.len() == path.take(n).len() + b.len() + 1 + path.skip(n).len());
        assert forall|i: int| 0 <= i < a.len() implies a[i] == b[i] by {
            assert(x[path.take(n).len() + i] == a[i]);
            assert(y[path.take(n).len() + i] == b[i]);
        }
        assert(a =~= b);
    }
}

/// The workspace's own instructions are written in any case, before anything
/// else.
pub proof fn guide_always_written(
    who: AssistantView,
    dir: Seq<char>,
    guides: Seq<Seq<char>>,
    a: AssemblyView,
)
    requires
        merge_plan(who, dir, guides, a) is Ok,
    ensures
        merge_plan(who, dir, guides, a)->Ok_0.len() > 0,
        merge_plan(who, dir, guides, a)->Ok_0[0] == (FileActionView::Write {
            path: joined_path(dir, who.guide),
            text: workspace_guide_of(guides),
        }),
{
}

/// Appends the copies of one file.
fn push_copies(out: &mut Vec<FileAction>, dir: &str, rel: &str, sources: &Vec<(String, String)>)
    ensures
        final(out).deep_view() == old(out).deep_view() + copies_of(
            dir@,
            (rel@, sources.deep_view()),
        ),
{
    let ghost g = out.deep_view();
    let ghost s = sources.deep_view();
    let dest = join_path(dir, rel);
    if sources.len() == 1 {
        assert(s[0] == (sources@[0].0@, sources@[0].1@));
        out.push(FileAction::Copy { from: sources[0].1.clone(), to: dest });
        assert(out.deep_view() =~= g + copies_of(dir@, (rel@, s)));
    } else {
        let ghost all = prefixed_copies(dest@, s);
        assert(g + all.take(0) =~= g);
        for i in 0..sources.len()
            invariant
                s == sources.deep_view(),
                all == prefixed_copies(dest@, s),
                out.deep_view() == g + all.take(i as int),
        {
            let to = prefix_file_name(dest.as_str(), sources[i].0.as_str());
            assert(s[i as int] == (sources@[i as int].0@, sources@[i as int].1@));
            let ghost here = out.deep_view();
            out.push(FileAction::Copy { from: sources[i].1.clone(), to });
            assert(out.deep_view() =~= here.push(all[i as int]));
            assert(all.take(i + 1) =~= all.take(i as int).push(all[i as int]));
            assert(out.deep_view() =~= g + all.take(i + 1));
        }
        assert(all.take(all.len() as int) =~= all);
    }
}

/// What is to be done to assemble the assistant's directory `dir` of a workspace:
/// the workspace's own instructions always, the settings and the MCP servers
/// where there are any, and every other file.
pub fn merge_claude_dirs(
    who: &Assistant,
    dir: &str,
    guides: &Vec<String>,
    merged: Assembly,
) -> (r: Result<Vec<FileAction>, Error>)
    requires
        merged.wf(),
    ensures
        r is Ok,
        outcome(r) == merge_plan(who@, dir@, guides.deep_view(), merged@),
{
    let ghost a = merged@;
    let mut out: Vec<FileAction> = Vec::new();
    let path = join_path(dir, who.guide.as_str());
    let text = workspace_guide(guides);
    out.push(FileAction::Write { path, text });
    let ghost first = out.deep_view();
    assert(first =~= seq![
        FileActionView::Write {
            path: joined_path(dir@, who@.guide),
            text: workspace_guide_of(guides.deep_view()),
        },
    ]);
    if merged.allow.len() > 0 || merged.deny.len() > 0 {
        match settings_file(&merged.allow, &merged.deny) {
            Ok(text) => {
                out.push(FileAction::Write { path: join_path(dir, "settings.local.json"), text });
            },
            Err(e) => {
                return Err(e);
            },
        }
    }
    let ghost second = out.deep_view();
    assert(second =~= first + settings_writes(dir@, a)->Ok_0);
    let Assembly { allow: _, deny: _, servers, files } = merged;
    if servers.len() > 0 {
        match mcp_file(servers) {
            Ok(text) => {
                out.push(FileAction::Write { path: join_path(dir, "mcp.json"), text });
            },
            Err(e) => {
                return Err(e);
            },
        }
    }
    let ghost third = out.deep_view();
    assert(third =~= second + mcp_writes(dir@, a)->Ok_0);
    let ghost f = files.deep_view();
    assert(third + all_copies(dir@, f.take(0)) =~= third);
    for i in 0..files.len()
        invariant
            f == files.deep_view(),
            out.deep_view() == third + all_copies(dir@, f.take(i as int)),
    {
        assert(f.take(i + 1).drop_last() =~= f.take(i as int));
        let ghost here = out.deep_view();
        push_copies(&mut out, dir, files[i].0.as_str(), &files[i].1);
        assert(f.take(i + 1).last() == (files@[i as int].0@, files@[i as int].1.deep_view()));
        assert(out.deep_view() =~= third + all_copies(dir@, f.take(i + 1)));
    }
    assert(f.take(f.len() as int) =~= f);
    Ok(out)
}

// ---------------------------------------------------------------------------
// The base's own directory for the assistant
// ---------------------------------------------------------------------------

/// Where a base keeps files for the assistant's directories of its workspaces.
pub fn base_claude_dir(who: &Assistant, env: &Environment, base_name: &str) -> (r: Result<
    String,
    Error,
>)
    ensures
        outcome(r) == (match env@.config_dir() {
            Ok(d) => Ok(
                joined_path(joined_path(joined_path(d, "bases"@), base_name@), who@.dir),
            ),
            Err(e) => Err(e),
        }),
{
    match config_dir(env) {
        Ok(d) => {
            let bases = join_path(d.as_str(), "bases");
            let base = join_path(bases.as_str(), base_name);
            Ok(join_path(base.as_str(), who.dir.as_str()))
        },
        Err(e) => Err(e),
    }
}

/// What stands before the instructions of the base: those that are there, ended
/// by a newline, and an empty line.
pub open spec fn before_base(existing: Option<Seq<char>>) -> Seq<char> {
    match existing {
        Some(e) => if e.len() > 0 && e.last() == '\n' {
            e.push('\n')
        } else {
            e.push('\n').push('\n')
        },
        None => Seq::empty(),
    }
}

/// The instructions of a workspace with those of its base after them.
pub open spec fn overlaid_claude_md(
    who: AssistantView,
    existing: Option<Seq<char>>,
    base: Seq<char>,
) -> Seq<char> {
    (before_base(existing) + "# "@ + who.guide + " (from base)\n\n"@ + trimmed(base)).push('\n')
}

/// The instructions of a workspace with those of its base after them.
pub fn overlay_claude_md(who: &Assistant, existing: Option<String>, base_content: &str) -> (r:
    String)
    ensures
        r@ == overlaid_claude_md(who@, existing.deep_view(), base_content@),
{
    let ghost e = existing.deep_view();
    let mut merged = String::new();
    if let Some(text) = existing {
        merged = text;
        let cs = chars_of(merged.as_str());
        if cs.len() == 0 || cs[cs.len() - 1] != '\n' {
            merged.push('\n');
        }
        merged.push('\n');
    }
    assert(merged@ =~= before_base(e));
    let body = trim(base_content);
    let mut out = cat3(merged.as_str(), "# ", who.guide.as_str());
    out = cat3(out.as_str(), " (from base)\n\n", body.as_str());
    out.push('\n');
    assert(out@ =~= overlaid_claude_md(who@, e, base_content@));
    out
}

/// One list of permissions of a workspace and its base together.
pub open spec fn overlaid_permission(
    existing: Option<JsonView>,
    base: JsonView,
    which: Seq<char>,
) -> Seq<Seq<char>> {
    match existing {
        Some(e) => permission(e, which) + permission(base, which),
        None => permission(base, which),
    }
}

/// The documents of a workspace's file, where it has one, and of its base's.
pub open spec fn both_documents(existing: Option<Seq<char>>, base: Seq<char>) -> Result<
    (Option<JsonView>, JsonView),
    ErrorView,
> {
    match (existing, document_of(base)) {
        (None, Ok(b)) => Ok((None, b)),
        (None, Err(e)) => Err(e),
        (Some(x), b) => match (document_of(x), b) {
            (Err(e), _) => Err(e),
            (Ok(_), Err(e)) => Err(e),
            (Ok(d), Ok(b)) => Ok((Some(d), b)),
        },
    }
}

/// The settings file of a workspace with the permissions of its base merged in.
pub open spec fn overlaid_settings(existing: Option<Seq<char>>, base: Seq<char>) -> Result<
    Seq<char>,
    ErrorView,
> {
    match both_documents(existing, base) {
        Ok((e, b)) => file_of(
            settings_json(
                overlaid_permission(e, b, "allow"@),
                overlaid_permission(e, b, "deny"@),
            ),
        ),
        Err(e) => Err(e),
    }
}

/// The settings file of a workspace with the permissions of its base merged in.
/// What is written holds every permission of the two, once.
pub fn overlay_settings(existing: Option<String>, base_content: &str) -> (r: Result<
    String,
    Error,
>)
    ensures
        outcome(r) == overlaid_settings(existing.deep_view(), base_content@),
        match both_documents(existing.deep_view(), base_content@) {
            Ok((e, b)) => r is Ok && document_of(r->Ok_0@) is Ok && permission(
                document_of(r->Ok_0@)->Ok_0,
                "allow"@,
            ) == sorted_of(overlaid_permission(e, b, "allow"@)) && permission(
                document_of(r->Ok_0@)->Ok_0,
                "deny"@,
            ) == sorted_of(overlaid_permission(e, b, "deny"@)),
            Err(e) => r is Err,
        },
{
    let ghost none: Seq<Seq<char>> = Seq::empty();
    let mut allow: Vec<String> = Vec::new();
    let mut deny: Vec<String> = Vec::new();
    assert(allow.deep_view() =~= none && deny.deep_view() =~= none);
    assert(forall|s: Seq<Seq<char>>| #[trigger] (none + s) =~= s);
    if let Some(text) = existing {
        match merge_settings_json(text.as_str(), &mut allow, &mut deny) {
            Ok(_) => {},
            Err(e) => {
                return Err(e);
            },
        }
    }
    match merge_settings_json(base_content, &mut allow, &mut deny) {
        Ok(_) => {
            proof {
                settings_law(allow.deep_view(), deny.deep_view());
            }
            settings_file(&allow, &deny)
        },
        Err(e) => Err(e),
    }
}

/// A settings document grants what stands as a string in its list, and denies
/// likewise: nothing else in it does.
pub proof fn permission_law(j: JsonView, which: Seq<char>, x: Seq<char>)
    ensures
        permission(j, which).contains(x) <==> exists|p: JsonView, list: Seq<JsonView>, k: int|
            j.get("permissions"@) == Some(p) && p.get(which) == Some(JsonView::Array(list)) && 0
                <= k < list.len() && #[trigger] list[k] == JsonView::Text(x) && #[trigger] p.get(
                which,
            ) is Some,
{
    match j.get("permissions"@) {
        Some(p) => match p.get(which) {
            Some(a) => {
                lemma_text_among(a.items(), x);
                if permission(j, which).contains(x) {
                    let list = a.items();
                    let k = choose|k: int|
                        0 <= k < list.len() && #[trigger] list[k] == JsonView::Text(x);
                    assert(p.get(which) == Some(JsonView::Array(list)));
                    assert(list[k] == JsonView::Text(x) && p.get(which) is Some);
                }
            },
            None => {},
        },
        None => {},
    }
}

proof fn lemma_text_among(items: Seq<JsonView>, x: Seq<char>)
    ensures
        texts_of(items).contains(x) <==> exists|k: int|
            0 <= k < items.len() && #[trigger] items[k] == JsonView::Text(x),
    decreases items.len(),
{
    if items.len() > 0 {
        let t = items.drop_last();
        lemma_text_among(t, x);
        let l = texts_of(items);
        if texts_of(t).contains(x) {
            let i = choose|i: int| 0 <= i < texts_of(t).len() && texts_of(t)[i] == x;
            assert(l[i] == x);
            let k = choose|k: int| 0 <= k < t.len() && #[trigger] t[k] == JsonView::Text(x);
            assert(items[k] == JsonView::Text(x));
        }
        if items.last() == JsonView::Text(x) {
            assert(items[items.len() - 1] == JsonView::Text(x));
            assert(l[l.len() - 1] == x);
        }
        if exists|k: int| 0 <= k < items.len() && #[trigger] items[k] == JsonView::Text(x) {
            let k = choose|k: int| 0 <= k < items.len() && #[trigger] items[k] == JsonView::Text(x);
            if k < t.len() {
                assert(t[k] == JsonView::Text(x));
            }
        }
        if l.contains(x) {
            let i = choose|i: int| 0 <= i < l.len() && l[i] == x;
            if i < texts_of(t).len() {
                assert(texts_of(t)[i] == x);
            }
        }
    }
}

/// The settings that are written for a workspace and its base grant exactly what
/// one of the two grants, and deny exactly what one of the two denies.
pub proof fn overlay_keeps_permissions(existing: Option<JsonView>, base: JsonView, x: Seq<char>)
    ensures
        ({
            let written = settings_json(
                overlaid_permission(existing, base, "allow"@),
                overlaid_permission(existing, base, "deny"@),
            );
            &&& permission(written, "allow"@).contains(x) <==> permission(base, "allow"@).contains(x)
                || (existing is Some && permission(existing->0, "allow"@).contains(x))
            &&& permission(written, "deny"@).contains(x) <==> permission(base, "deny"@).contains(x)
                || (existing is Some && permission(existing->0, "deny"@).contains(x))
        }),
{
    let a = overlaid_permission(existing, base, "allow"@);
    let d = overlaid_permission(existing, base, "deny"@);
    settings_law(a, d);
    sorted_law(a);
    sorted_law(d);
    if existing is Some {
        lemma_in_either(permission(existing->0, "allow"@), permission(base, "allow"@), x);
        lemma_in_either(permission(existing->0, "deny"@), permission(base, "deny"@), x);
    }
}

proof fn lemma_in_either(a: Seq<Seq<char>>, b: Seq<Seq<char>>, x: Seq<char>)
    ensures
        (a + b).contains(x) <==> a.contains(x) || b.contains(x),
{
    if a.contains(x) {
        let i = choose|i: int| 0 <= i < a.len() && a[i] == x;
        assert((a + b)[i] == x);
    }
    if b.contains(x) {
        let i = choose|i: int| 0 <= i < b.len() && b[i] == x;
        assert((a + b)[a.len() + i] == x);
    }
    if (a + b).contains(x) {
        let i = choose|i: int| 0 <= i < (a + b).len() && (a + b)[i] == x;
        if i < a.len() {
            assert(a[i] == x);
        } else {
            assert(b[i - a.len()] == x);
        }
    }
}

/// The settings that are written for the repos together grant exactly what the
/// settings of one of them grant, and deny exactly what those of one of them deny:
/// collecting a settings file adds its permissions, and takes none away.
pub proof fn collected_permissions(
    a: AssemblyView,
    who: AssistantView,
    repo: Seq<char>,
    path: Seq<char>,
    content: Seq<char>,
    x: Seq<char>,
)
    requires
        who.guide != "settings.local.json"@,
        document_of(content) is Ok,
    ensures
        ({
            let j = document_of(content)->Ok_0;
            let r = a.with_entry(who, repo, "settings.local.json"@, path, content);
            let now = r->Ok_0;
            &&& r is Ok
            &&& permission(settings_json(now.allow, now.deny), "allow"@).contains(x)
                <==> permission(settings_json(a.allow, a.deny), "allow"@).contains(x)
                || permission(j, "allow"@).contains(x)
            &&& permission(settings_json(now.allow, now.deny), "deny"@).contains(x)
                <==> permission(settings_json(a.allow, a.deny), "deny"@).contains(x) || permission(
                j,
                "deny"@,
            ).contains(x)
            &&& now.servers == a.servers
            &&& now.files == a.files
        }),
{
    let j = document_of(content)->Ok_0;
    let now = a.with_entry(who, repo, "settings.local.json"@, path, content)->Ok_0;
    settings_law(a.allow, a.deny);
    settings_law(now.allow, now.deny);
    sorted_law(a.allow);
    sorted_law(a.deny);
    sorted_law(now.allow);
    sorted_law(now.deny);
    lemma_in_either(a.allow, permission(j, "allow"@), x);
    lemma_in_either(a.deny, permission(j, "deny"@), x);
}

/// Collecting an MCP file changes the servers alone, and collecting instructions
/// changes nothing.
pub proof fn collected_parts(
    a: AssemblyView,
    who: AssistantView,
    repo: Seq<char>,
    path: Seq<char>,
    content: Seq<char>,
)
    requires
        who.guide != "mcp.json"@,
        document_of(content) is Ok,
    ensures
        ({
            let r = a.with_entry(who, repo, "mcp.json"@, path, content);
            let now = r->Ok_0;
            &&& r is Ok
            &&& now.allow == a.allow
            &&& now.deny == a.deny
            &&& now.files == a.files
            &&& now.servers == with_servers(a.servers, repo, servers_of(document_of(content)->Ok_0))
        }),
        a.with_entry(who, repo, who.guide, path, content) == Ok::<AssemblyView, ErrorView>(a),
{
    reveal_strlit("mcp.json");
    reveal_strlit("settings.local.json");
    assert("mcp.json"@.len() != "settings.local.json"@.len());
}

/// A file that is neither instructions nor settings nor servers is kept for its
/// repo, after those that have it at the same place: skills and agents below the
/// name of the repo, everything else where it was. Files at other places, and
/// everything else, stay as they are.
pub proof fn collected_file(
    a: AssemblyView,
    who: AssistantView,
    repo: Seq<char>,
    rel: Seq<char>,
    path: Seq<char>,
    content: Seq<char>,
    other: Seq<char>,
)
    requires
        ordered(a.files),
        rel != who.guide,
        rel != "settings.local.json"@,
        rel != "mcp.json"@,
    ensures
        ({
            let r = a.with_entry(who, repo, rel, path, content);
            let now = r->Ok_0;
            let at = if exists|x: Seq<char>| rel == #[trigger] ("skills/"@ + x) {
                "skills/"@ + repo + "/"@ + rel.skip(7)
            } else if exists|x: Seq<char>| rel == #[trigger] ("agents/"@ + x) {
                "agents/"@ + repo + "/"@ + rel.skip(7)
            } else {
                rel
            };
            &&& r is Ok
            &&& now.sources(at) == a.sources(at).push((repo, path))
            &&& other != at ==> now.sources(other) == a.sources(other)
            &&& now.allow == a.allow
            &&& now.deny == a.deny
            &&& now.servers == a.servers
        }),
{
    reveal_strlit("skills/");
    reveal_strlit("agents/");
    let s = "skills/"@;
    let g = "agents/"@;
    if s.is_prefix_of(rel) {
        assert(rel =~= s + rel.skip(7));
    }
    if g.is_prefix_of(rel) {
        assert(rel =~= g + rel.skip(7));
    }
    if exists|x: Seq<char>| rel == #[trigger] (s + x) {
        let x = choose|x: Seq<char>| rel == #[trigger] (s + x);
        assert(s =~= rel.take(7));
    }
    if exists|x: Seq<char>| rel == #[trigger] (g + x) {
        let x = choose|x: Seq<char>| rel == #[trigger] (g + x);
        assert(g =~= rel.take(7));
    }
    let at = placed(repo, rel);
    put_law(a.files, at, a.sources(at).push((repo, path)), other);
    put_law(a.files, at, a.sources(at).push((repo, path)), at);
}

/// Every file that a repo has is copied into the workspace: to its place, where no
/// other repo has it there, and else beside it in the same directory, with the
/// name of the repo and a dot before its own.
pub proof fn every_file_copied(
    dir: Seq<char>,
    files: Seq<(Seq<char>, Seq<(Seq<char>, Seq<char>)>)>,
    i: int,
    k: int,
)
    requires
        0 <= i < files.len(),
        0 <= k < files[i].1.len(),
    ensures
        ({
            let dest = joined_path(dir, files[i].0);
            let n = after_last(dest, '/') as int;
            let to = if files[i].1.len() == 1 {
                dest
            } else {
                dest.take(n) + files[i].1[k].0 + "."@ + dest.skip(n)
            };
            all_copies(dir, files).contains(
                FileActionView::Copy { from: files[i].1[k].1, to },
            )
        }),
    decreases files.len(),
{
    reveal_strlit(".");
    assert("."@ =~= seq!['.']);
    let rest = all_copies(dir, files.drop_last());
    let last = copies_of(dir, files.last());
    let all = rest + last;
    if i < files.len() - 1 {
        assert(files.drop_last()[i] == files[i]);
        every_file_copied(dir, files.drop_last(), i, k);
        assert forall|c: FileActionView| rest.contains(c) implies all.contains(c) by {
            let m = choose|m: int| 0 <= m < rest.len() && rest[m] == c;
            assert(all[m] == c);
        }
    } else {
        let m = rest.len() + k;
        assert(all[m] == last[k]);
    }
}

/// Nothing is copied that no repo has, and nothing is written among the copies.
pub proof fn only_files_copied(
    dir: Seq<char>,
    files: Seq<(Seq<char>, Seq<(Seq<char>, Seq<char>)>)>,
    m: int,
)
    requires
        0 <= m < all_copies(dir, files).len(),
    ensures
        exists|i: int, k: int|
            0 <= i < files.len() && 0 <= k < files[i].1.len() && all_copies(dir, files)[m] is Copy
                && all_copies(dir, files)[m]->Copy_from == (#[trigger] files[i].1[k]).1,
    decreases files.len(),
{
    let rest = all_copies(dir, files.drop_last());
    let last = copies_of(dir, files.last());
    let n = files.len() - 1;
    if m < rest.len() {
        only_files_copied(dir, files.drop_last(), m);
        let (i, k) = choose|i: int, k: int|
            0 <= i < n && 0 <= k < files.drop_last()[i].1.len() && rest[m] is Copy
                && rest[m]->Copy_from == (#[trigger] files.drop_last()[i].1[k]).1;
        assert(files.drop_last()[i] == files[i]);
        assert(rest[m]->Copy_from == files[i].1[k].1);
    } else {
        let k = m - rest.len();
        assert(all_copies(dir, files)[m] == last[k]);
        assert(last[k]->Copy_from == files[n].1[k].1);
    }
}

/// What the repos grant or deny is written into the settings of the workspace,
/// and their servers into its MCP file, each in the assistant's directory, where
/// there are any; every copy is made too.
pub proof fn merge_writes_all(
    who: AssistantView,
    dir: Seq<char>,
    guides: Seq<Seq<char>>,
    a: AssemblyView,
    x: FileActionView,
)
    requires
        merge_plan(who, dir, guides, a) is Ok,
    ensures
        ({
            let plan = merge_plan(who, dir, guides, a)->Ok_0;
            &&& a.allow.len() > 0 || a.deny.len() > 0 ==> file_of(settings_json(a.allow, a.deny)) is Ok
                && plan.contains(
                FileActionView::Write {
                    path: joined_path(dir, "settings.local.json"@),
                    text: file_of(settings_json(a.allow, a.deny))->Ok_0,
                },
            )
            &&& a.servers.len() > 0 ==> file_of(mcp_json(a.servers)) is Ok && plan.contains(
                FileActionView::Write {
                    path: joined_path(dir, "mcp.json"@),
                    text: file_of(mcp_json(a.servers))->Ok_0,
                },
            )
            &&& all_copies(dir, a.files).contains(x) ==> plan.contains(x)
        }),
{
    let plan = merge_plan(who, dir, guides, a)->Ok_0;
    let s = settings_writes(dir, a)->Ok_0;
    let m = mcp_writes(dir, a)->Ok_0;
    let c = all_copies(dir, a.files);
    if a.allow.len() > 0 || a.deny.len() > 0 {
        assert(plan[1] == s[0]);
    }
    if a.servers.len() > 0 {
        assert(plan[1int + s.len()] == m[0]);
    }
    if c.contains(x) {
        let k = choose|k: int| 0 <= k < c.len() && c[k] == x;
        assert(plan[1int + s.len() + m.len() + k] == x);
    }
}

/// The workspace's own instructions name those of every project.
pub proof fn guide_names_all(guides: Seq<Seq<char>>, i: int)
    requires
        0 <= i < guides.len(),
    ensures
        occurs(workspace_guide_of(guides), "`"@ + guides[i] + "`"@),
        GUIDE_INTRO@.is_prefix_of(workspace_guide_of(guides)),
    decreases guides.len(),
{
    let t = guides.drop_last();
    let rest = workspace_guide_of(t);
    let all = workspace_guide_of(guides);
    let line = "- `"@ + guides.last() + "`\n"@;
    lemma_guide_intro(t);
    lemma_guide_intro(guides);
    assert(all == rest + line);
    if i < t.len() {
        assert(t[i] == guides[i]);
        guide_names_all(t, i);
        let p = "`"@ + guides[i] + "`"@;
        let k = choose|k: int| occurs_at(rest, p, k);
        assert(all.subrange(k, k + p.len()) =~= rest.subrange(k, k + p.len()));
        assert(occurs_at(all, p, k));
    } else {
        reveal_strlit("`");
        reveal_strlit("- `");
        reveal_strlit("`\n");
        let p = "`"@ + guides[i] + "`"@;
        let k = rest.len() as int + 2;
        assert(all.subrange(k, k + p.len()) =~= p);
        assert(occurs_at(all, p, k));
    }
}

proof fn lemma_guide_intro(guides: Seq<Seq<char>>)
    ensures
        GUIDE_INTRO@.is_prefix_of(workspace_guide_of(guides)),
    decreases guides.len(),
{
    let all = workspace_guide_of(guides);
    if guides.len() > 0 {
        lemma_guide_intro(guides.drop_last());
        let rest = workspace_guide_of(guides.drop_last());
        assert(GUIDE_INTRO@ =~= all.take(GUIDE_INTRO@.len() as int)) by {
            assert(GUIDE_INTRO@ =~= rest.take(GUIDE_INTRO@.len() as int));
        }
    } else {
        assert(GUIDE_INTRO@ =~= all.take(all.len() as int));
    }
}

/// The instructions that a workspace has stay at the front of what is written for
/// it and its base, and those of the base stand at the end, without the whitespace
/// around them, under a heading of their own that an empty line sets off.
pub proof fn overlay_keeps_guide(who: AssistantView, existing: Option<Seq<char>>, base: Seq<char>)
    ensures
        ({
            let r = overlaid_claude_md(who, existing, base);
            let tail = "# "@ + who.guide + " (from base)\n\n"@ + trimmed(base) + "\n"@;
            &&& existing is Some ==> existing->0.is_prefix_of(r)
            &&& tail.is_suffix_of(r)
            &&& existing is None ==> r == tail
            &&& existing is Some ==> r.len() >= existing->0.len() + 1 + tail.len() && r[r.len()
                - tail.len() - 1] == '\n'
            &&& existing is Some && existing->0.len() > 0 ==> r[r.len() - tail.len() - 2] == '\n'
        }),
{
    reveal_strlit("\n");
    let r = overlaid_claude_md(who, existing, base);
    let b = before_base(existing);
    let tail = "# "@ + who.guide + " (from base)\n\n"@ + trimmed(base) + "\n"@;
    assert(r =~= b + tail);
    assert(tail =~= r.subrange(r.len() - tail.len(), r.len() as int));
    if existing is Some {
        assert(existing->0 =~= r.take(existing->0.len() as int));
    }
}

/// The files of a base that are laid over those of a workspace: instructions are
/// put behind those that are there, settings and servers are merged, and every
/// other file is copied as it is.
pub proof fn overlay_by_part(
    who: AssistantView,
    rel: Seq<char>,
    existing: Option<Seq<char>>,
    base: Seq<char>,
)
    requires
        who.guide != "settings.local.json"@,
        who.guide != "mcp.json"@,
    ensures
        rel == who.guide ==> overlaid(who, rel, existing, base) == Ok::<
            Option<Seq<char>>,
            ErrorView,
        >(Some(overlaid_claude_md(who, existing, base))),
        rel == "settings.local.json"@ && overlaid_settings(existing, base) is Ok ==> overlaid(
            who,
            rel,
            existing,
            base,
        ) == Ok::<Option<Seq<char>>, ErrorView>(Some(overlaid_settings(existing, base)->Ok_0)),
        rel == "mcp.json"@ && overlaid_mcp(existing, base) is Ok ==> overlaid(
            who,
            rel,
            existing,
            base,
        ) == Ok::<Option<Seq<char>>, ErrorView>(Some(overlaid_mcp(existing, base)->Ok_0)),
        rel != who.guide && rel != "settings.local.json"@ && rel != "mcp.json"@ ==> overlaid(
            who,
            rel,
            existing,
            base,
        ) == Ok::<Option<Seq<char>>, ErrorView>(None),
{
    reveal_strlit("mcp.json");
    reveal_strlit("settings.local.json");
    assert("mcp.json"@.len() != "settings.local.json"@.len());
}

/// The servers of a workspace, where it has any, with those of its base put in.
pub open spec fn overlaid_servers(existing: Option<JsonView>, base: JsonView) -> Fields {
    with_overrides(
        match existing {
            Some(d) => servers_of(d),
            None => Seq::empty(),
        },
        servers_of(base),
    )
}

/// The MCP file of a workspace with the servers of its base put in.
pub open spec fn overlaid_mcp(existing: Option<Seq<char>>, base: Seq<char>) -> Result<
    Seq<char>,
    ErrorView,
> {
    match both_documents(existing, base) {
        Ok((e, b)) => file_of(mcp_json(overlaid_servers(e, b))),
        Err(e) => Err(e),
    }
}

/// The MCP file of a workspace with the servers of its base put in, which
/// replace those of the same name. What is written reads back with these servers,
/// but that numbers in them other than integers may differ.
pub fn overlay_mcp(existing: Option<String>, base_content: &str) -> (r: Result<String, Error>)
    ensures
        outcome(r) == overlaid_mcp(existing.deep_view(), base_content@),
        match both_documents(existing.deep_view(), base_content@) {
            Ok((e, b)) => r is Ok && document_of(r->Ok_0@) is Ok && alike(
                JsonView::Object(overlaid_servers(e, b)),
                JsonView::Object(servers_of(document_of(r->Ok_0@)->Ok_0)),
            ) && (whole(JsonView::Object(overlaid_servers(e, b))) ==> servers_of(
                document_of(r->Ok_0@)->Ok_0,
            ) == overlaid_servers(e, b)),
            Err(e) => r is Err,
        },
{
    let mut servers: Vec<(String, Json)> = Vec::new();
    assert(servers.deep_view() =~= Seq::<(Seq<char>, JsonView)>::empty());
    if let Some(text) = existing {
        match read_document(text.as_str()) {
            Ok(value) => {
                proof {
                    lemma_servers_wf(value@);
                    lemma_servers_shallow(value@);
                }
                servers = servers_in(value);
            },
            Err(e) => {
                return Err(e);
            },
        }
    }
    match read_document(base_content) {
        Ok(value) => {
            proof {
                lemma_servers_wf(value@);
                lemma_servers_shallow(value@);
                lemma_overrides_shallow(servers.deep_view(), servers_of(value@));
            }
            let added = servers_in(value);
            override_servers(&mut servers, added);
            let ghost f = servers.deep_view();
            let r = mcp_file(servers);
            proof {
                lemma_mcp_back(f, document_of(r->Ok_0@)->Ok_0);
            }
            r
        },
        Err(e) => Err(e),
    }
}

/// The text of a workspace's file after the base's file of the same path has
/// been laid over it; none where the base's file is copied as it is.
pub open spec fn overlaid(
    who: AssistantView,
    rel: Seq<char>,
    existing: Option<Seq<char>>,
    base: Seq<char>,
) -> Result<Option<Seq<char>>, ErrorView> {
    match part(who, rel) {
        Part::Guide => Ok(Some(overlaid_claude_md(who, existing, base))),
        Part::Settings => match overlaid_settings(existing, base) {
            Ok(t) => Ok(Some(t)),
            Err(e) => Err(e),
        },
        Part::Mcp => match overlaid_mcp(existing, base) {
            Ok(t) => Ok(Some(t)),
            Err(e) => Err(e),
        },
        Part::Other => Ok(None),
    }
}

/// Lays a file of the base over the workspace's file of the same path: the text
/// to write, or none where the base's file is copied as it is.
pub fn overlay_file(
    who: &Assistant,
    rel: &str,
    existing: Option<String>,
    base_content: &str,
) -> (r: Result<Option<String>, Error>)
    ensures
        outcome(r) == overlaid(who@, rel@, existing.deep_view(), base_content@),
        r is Ok == (match part(who@, rel@) {
            Part::Settings => both_documents(existing.deep_view(), base_content@) is Ok,
            Part::Mcp => both_documents(existing.deep_view(), base_content@) is Ok,
            _ => true,
        }),
{
    match part_of(who, rel) {
        Part::Guide => Ok(Some(overlay_claude_md(who, existing, base_content))),
        Part::Settings => match overlay_settings(existing, base_content) {
            Ok(t) => Ok(Some(t)),
            Err(e) => Err(e),
        },
        Part::Mcp => match overlay_mcp(existing, base_content) {
            Ok(t) => Ok(Some(t)),
            Err(e) => Err(e),
        },
        Part::Other => Ok(None),
    }
}

/// The servers that are written for a workspace and its base: each server of the
/// base as it is there, and each other one of the workspace as it is there.
pub proof fn overlay_keeps_servers(existing: Option<JsonView>, base: JsonView, name: Seq<char>)
    requires
        well_formed(base),
        existing is Some ==> well_formed(existing->0),
    ensures
        entry(overlaid_servers(existing, base), name) == (if entry(servers_of(base), name) is Some {
            entry(servers_of(base), name)
        } else if existing is Some {
            entry(servers_of(existing->0), name)
        } else {
            None
        }),
        servers_of(mcp_json(overlaid_servers(existing, base))) == overlaid_servers(existing, base),
{
    lemma_servers_wf(base);
    if existing is Some {
        lemma_servers_wf(existing->0);
        override_law(servers_of(existing->0), servers_of(base), name);
    } else {
        override_law(Seq::empty(), servers_of(base), name);
    }
    let s = overlaid_servers(existing, base);
    assert(mcp_json(s)->Object_0[0] == ("mcpServers"@, JsonView::Object(s)));
}

/// The instructions of a repo are found in the repo: those at its top, and else those
/// in its directory for the assistant; a repo without either has none.
pub proof fn guide_found(who: AssistantView, repo: Seq<char>, at_top: bool, in_dir: bool)
    ensures
        guide_of(who, repo, at_top, in_dir) is Some <==> at_top || in_dir,
        guide_of(who, repo, at_top, in_dir) is Some ==> (repo + "/"@).is_prefix_of(
            guide_of(who, repo, at_top, in_dir)->0,
        ) && who.guide.is_suffix_of(guide_of(who, repo, at_top, in_dir)->0),
        at_top ==> guide_of(who, repo, at_top, in_dir)->0.len() == repo.len() + 1 + who.guide.len(),
        !at_top && in_dir ==> guide_of(who, repo, at_top, in_dir)->0 == repo + "/"@ + who.dir + "/"@
            + who.guide,
{
    reveal_strlit("/");
    if at_top || in_dir {
        let g = guide_of(who, repo, at_top, in_dir)->0;
        let p = repo + "/"@;
        assert(p =~= g.take(p.len() as int));
        assert(who.guide =~= g.subrange(g.len() - who.guide.len(), g.len() as int));
    }
}

/// What is laid over a file of the workspace takes in both files: it fails exactly
/// where one of them cannot be read, and else what is written is made of what both of
/// them say; where the workspace has no such file, of what the base's says.
pub proof fn overlay_reads_both(existing: Seq<char>, base: Seq<char>)
    ensures
        both_documents(Some(existing), base) is Ok <==> document_of(existing) is Ok && document_of(base)
            is Ok,
        both_documents(None, base) is Ok <==> document_of(base) is Ok,
        document_of(existing) is Ok && document_of(base) is Ok ==> ({
            let (e, b) = (document_of(existing)->Ok_0, document_of(base)->Ok_0);
            &&& overlaid_settings(Some(existing), base) == file_of(
                settings_json(
                    permission(e, "allow"@) + permission(b, "allow"@),
                    permission(e, "deny"@) + permission(b, "deny"@),
                ),
            )
            &&& overlaid_mcp(Some(existing), base) == file_of(
                mcp_json(with_overrides(servers_of(e), servers_of(b))),
            )
        }),
        document_of(base) is Ok ==> ({
            let b = document_of(base)->Ok_0;
            &&& overlaid_settings(None, base) == file_of(
                settings_json(permission(b, "allow"@), permission(b, "deny"@)),
            )
            &&& overlaid_mcp(None, base) == file_of(
                mcp_json(with_overrides(Seq::empty(), servers_of(b))),
            )
        }),
        document_of(existing) is Err ==> overlaid_settings(Some(existing), base) is Err && overlaid_mcp(
            Some(existing),
            base,
        ) is Err,
        document_of(base) is Err ==> overlaid_settings(Some(existing), base) is Err && overlaid_mcp(
            Some(existing),
            base,
        ) is Err,
{
}

} // verus!
