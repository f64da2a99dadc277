//! Minimal, dependency-free internationalisation.
//!
//! Translations live in code as tables keyed by language code. English is always loaded
//! first as the fallback; the selected language's table overrides matching keys. **Adding
//! a language** is a matter of writing a new `xx()` function and registering it in
//! [`set_lang`] -- the rest of the app picks it up automatically.

use vstd::hash_map::StringHashMap;
use vstd::prelude::*;

use crate::text;

verus! {

/// Keys with their translations.
pub type Table = Seq<(Seq<char>, Seq<char>)>;

/// The texts of a table.
pub open spec fn pairs(v: Seq<(&'static str, &'static str)>) -> Table {
    v.map_values(|p: (&'static str, &'static str)| (p.0@, p.1@))
}

/// The English texts.
#[verifier::opaque]
pub open spec fn en_table() -> Table {
    seq![
        ("app.title"@, "SSH Client"@),
        ("login.subtitle"@, "Sign in to your sync server"@),
        ("login.server-url"@, "Sync server URL"@),
        ("login.username"@, "Username"@),
        ("login.password"@, "Password"@),
        ("login.show"@, "Show"@),
        ("login.hide"@, "Hide"@),
        ("login.login"@, "Login"@),
        ("login.register"@, "Register"@),
        ("main.signed-in"@, "signed in as "@),
        ("main.sync"@, "Sync"@),
        ("main.logout"@, "Logout"@),
        ("main.search"@, "search hosts"@),
        ("main.connect"@, "Connect"@),
        ("main.edit"@, "Edit"@),
        ("main.no-hosts"@, "no hosts yet - add one below"@),
        ("host.add"@, "Add host"@),
        ("host.edit"@, "Edit host"@),
        ("host.new"@, "New"@),
        ("host.name"@, "Name"@),
        ("host.host"@, "Host"@),
        ("host.port"@, "Port"@),
        ("host.user"@, "Username"@),
        ("host.save"@, "Save host"@),
        ("host.update"@, "Update host"@),
        ("host.key-path"@, "Key path (~/.ssh/id_rsa)"@),
        ("host.passphrase"@, "Key passphrase (synced encrypted)"@),
        ("host.password"@, "Password"@),
        ("term.not-connected"@, "not connected"@),
        ("term.no-sessions"@, "no active sessions - click Connect on a host"@),
        ("term.font"@, "Font"@),
        ("term.clear"@, "Clear"@),
        ("term.disconnect"@, "Disconnect"@),
        ("term.copy"@, "Copy"@),
        ("theme.dark"@, "Dark"@),
        ("theme.light"@, "Light"@),
        ("lang.en"@, "EN"@),
        ("lang.zh"@, "中文"@),
        ("ph.server-url"@, "http://127.0.0.1:8787"@),
        ("ph.username"@, "username"@),
        ("ph.password"@, "password"@),
        ("ph.port"@, "22"@),
        ("ph.font"@, "Menlo"@),
        ("status.signing-in"@, "signing in..."@),
        ("status.registering"@, "registering..."@),
        ("status.signed-in"@, "signed in - loading remote hosts..."@),
        ("status.syncing"@, "syncing..."@),
        ("status.sync-complete"@, "sync complete"@),
        ("status.sync-failed"@, "sync failed: {0}"@),
        ("status.deleted"@, "deleted"@),
        ("status.deleted-local"@, "deleted locally"@),
        ("status.host-saved"@, "host saved - click Sync to upload"@),
        ("status.host-updated"@, "host updated"@),
        ("status.connecting"@, "connecting to {0} ({1}x{2})..."@),
        ("status.disconnected"@, "disconnected"@),
        ("status.session-ended"@, "session ended"@),
        ("status.session-ended-label"@, "session ended: {0}"@),
        ("status.not-signed-in"@, "not signed in"@),
        ("status.enter-creds"@, "enter username and password"@),
        ("status.invalid-url"@, "invalid server url: {0}"@),
        ("status.save-failed"@, "save failed: {0}"@),
        ("status.font-saved-error"@, "could not save font: {0}"@),
        ("status.name-required"@, "name, host and username are required"@),
        ("status.no-host"@, "no such host"@),
        ("status.editing"@, "editing host - click Save to update"@),
        ("status.adding-host"@, "adding a new host"@),
        ("status.login-failed"@, "login failed: {0}"@),
        ("status.error"@, "error: {0}"@),
        ("status.copied"@, "copied {0} chars"@),
    ]
}

/// The English texts.
pub fn en() -> (r: Vec<(&'static str, &'static str)>)
    ensures
        pairs(r@) == en_table(),
{
    let r: Vec<(&'static str, &'static str)> = vec![
        ("app.title", "SSH Client"),
        ("login.subtitle", "Sign in to your sync server"),
        ("login.server-url", "Sync server URL"),
        ("login.username", "Username"),
        ("login.password", "Password"),
        ("login.show", "Show"),
        ("login.hide", "Hide"),
        ("login.login", "Login"),
        ("login.register", "Register"),
        ("main.signed-in", "signed in as "),
        ("main.sync", "Sync"),
        ("main.logout", "Logout"),
        ("main.search", "search hosts"),
        ("main.connect", "Connect"),
        ("main.edit", "Edit"),
        ("main.no-hosts", "no hosts yet - add one below"),
        ("host.add", "Add host"),
        ("host.edit", "Edit host"),
        ("host.new", "New"),
        ("host.name", "Name"),
        ("host.host", "Host"),
        ("host.port", "Port"),
        ("host.user", "Username"),
        ("host.save", "Save host"),
        ("host.update", "Update host"),
        ("host.key-path", "Key path (~/.ssh/id_rsa)"),
        ("host.passphrase", "Key passphrase (synced encrypted)"),
        ("host.password", "Password"),
        ("term.not-connected", "not connected"),
        ("term.no-sessions", "no active sessions - click Connect on a host"),
        ("term.font", "Font"),
        ("term.clear", "Clear"),
        ("term.disconnect", "Disconnect"),
        ("term.copy", "Copy"),
        ("theme.dark", "Dark"),
        ("theme.light", "Light"),
        ("lang.en", "EN"),
        ("lang.zh", "中文"),
        ("ph.server-url", "http://127.0.0.1:8787"),
        ("ph.username", "username"),
        ("ph.password", "password"),
        ("ph.port", "22"),
        ("ph.font", "Menlo"),
        ("status.signing-in", "signing in..."),
        ("status.registering", "registering..."),
        ("status.signed-in", "signed in - loading remote hosts..."),
        ("status.syncing", "syncing..."),
        ("status.sync-complete", "sync complete"),
        ("status.sync-failed", "sync failed: {0}"),
        ("status.deleted", "deleted"),
        ("status.deleted-local", "deleted locally"),
        ("status.host-saved", "host saved - click Sync to upload"),
        ("status.host-updated", "host updated"),
        ("status.connecting", "connecting to {0} ({1}x{2})..."),
        ("status.disconnected", "disconnected"),
        ("status.session-ended", "session ended"),
        ("status.session-ended-label", "session ended: {0}"),
        ("status.not-signed-in", "not signed in"),
        ("status.enter-creds", "enter username and password"),
        ("status.invalid-url", "invalid server url: {0}"),
        ("status.save-failed", "save failed: {0}"),
        ("status.font-saved-error", "could not save font: {0}"),
        ("status.name-required", "name, host and username are required"),
        ("status.no-host", "no such host"),
        ("status.editing", "editing host - click Save to update"),
        ("status.adding-host", "adding a new host"),
        ("status.login-failed", "login failed: {0}"),
        ("status.error", "error: {0}"),
        ("status.copied", "copied {0} chars"),
    ];
    proof {
        reveal(en_table);
        assert(pairs(r@) =~= en_table());
    }
    r
}

/// The Chinese texts.
#[verifier::opaque]
pub open spec fn zh_table() -> Table {
    seq![
        ("app.title"@, "SSH 客户端"@),
        ("login.subtitle"@, "登录到同步服务器"@),
        ("login.server-url"@, "同步服务器地址"@),
        ("login.username"@, "用户名"@),
        ("login.password"@, "密码"@),
        ("login.show"@, "显示"@),
        ("login.hide"@, "隐藏"@),
        ("login.login"@, "登录"@),
        ("login.register"@, "注册"@),
        ("main.signed-in"@, "已登录："@),
        ("main.sync"@, "同步"@),
        ("main.logout"@, "退出"@),
        ("main.search"@, "搜索主机"@),
        ("main.connect"@, "连接"@),
        ("main.edit"@, "编辑"@),
        ("main.no-hosts"@, "还没有主机 - 在下方添加"@),
        ("host.add"@, "添加主机"@),
        ("host.edit"@, "编辑主机"@),
        ("host.new"@, "新建"@),
        ("host.name"@, "名称"@),
        ("host.host"@, "主机"@),
        ("host.port"@, "端口"@),
        ("host.user"@, "用户名"@),
        ("host.save"@, "保存主机"@),
        ("host.update"@, "更新主机"@),
        ("host.key-path"@, "密钥路径 (~/.ssh/id_rsa)"@),
        ("host.passphrase"@, "密钥口令（加密同步）"@),
        ("host.password"@, "密码"@),
        ("term.not-connected"@, "未连接"@),
        ("term.no-sessions"@, "没有活动会话 - 点击主机的连接"@),
        ("term.font"@, "字体"@),
        ("term.clear"@, "清屏"@),
        ("term.disconnect"@, "断开"@),
        ("term.copy"@, "复制"@),
        ("theme.dark"@, "深色"@),
        ("theme.light"@, "浅色"@),
        ("lang.en"@, "EN"@),
        ("lang.zh"@, "中文"@),
        ("ph.server-url"@, "http://127.0.0.1:8787"@),
        ("ph.username"@, "用户名"@),
        ("ph.password"@, "密码"@),
        ("ph.port"@, "22"@),
        ("ph.font"@, "Menlo"@),
        ("status.signing-in"@, "登录中..."@),
        ("status.registering"@, "注册中..."@),
        ("status.signed-in"@, "已登录 - 加载远程主机..."@),
        ("status.syncing"@, "同步中..."@),
        ("status.sync-complete"@, "同步完成"@),
        ("status.sync-failed"@, "同步失败：{0}"@),
        ("status.deleted"@, "已删除"@),
        ("status.deleted-local"@, "已在本地删除"@),
        ("status.host-saved"@, "主机已保存 - 点击同步上传"@),
        ("status.host-updated"@, "主机已更新"@),
        ("status.connecting"@, "正在连接 {0} ({1}x{2})..."@),
        ("status.disconnected"@, "已断开"@),
        ("status.session-ended"@, "会话结束"@),
        ("status.session-ended-label"@, "会话结束：{0}"@),
        ("status.not-signed-in"@, "未登录"@),
        ("status.enter-creds"@, "请输入用户名和密码"@),
        ("status.invalid-url"@, "服务器地址无效：{0}"@),
        ("status.save-failed"@, "保存失败：{0}"@),
        ("status.font-saved-error"@, "无法保存字体：{0}"@),
        ("status.name-required"@, "名称、主机和用户名为必填项"@),
        ("status.no-host"@, "找不到该主机"@),
        ("status.editing"@, "正在编辑主机 - 点击保存以更新"@),
        ("status.adding-host"@, "正在添加新主机"@),
        ("status.login-failed"@, "登录失败：{0}"@),
        ("status.error"@, "错误：{0}"@),
        ("status.copied"@, "已复制 {0} 个字符"@),
    ]
}

/// The Chinese texts.
pub fn zh() -> (r: Vec<(&'static str, &'static str)>)
    ensures
        pairs(r@) == zh_table(),
{
    let r: Vec<(&'static str, &'static str)> = vec![
        ("app.title", "SSH 客户端"),
        ("login.subtitle", "登录到同步服务器"),
        ("login.server-url", "同步服务器地址"),
        ("login.username", "用户名"),
        ("login.password", "密码"),
        ("login.show", "显示"),
        ("login.hide", "隐藏"),
        ("login.login", "登录"),
        ("login.register", "注册"),
        ("main.signed-in", "已登录："),
        ("main.sync", "同步"),
        ("main.logout", "退出"),
        ("main.search", "搜索主机"),
        ("main.connect", "连接"),
        ("main.edit", "编辑"),
        ("main.no-hosts", "还没有主机 - 在下方添加"),
        ("host.add", "添加主机"),
        ("host.edit", "编辑主机"),
        ("host.new", "新建"),
        ("host.name", "名称"),
        ("host.host", "主机"),
        ("host.port", "端口"),
        ("host.user", "用户名"),
        ("host.save", "保存主机"),
        ("host.update", "更新主机"),
        ("host.key-path", "密钥路径 (~/.ssh/id_rsa)"),
        ("host.passphrase", "密钥口令（加密同步）"),
        ("host.password", "密码"),
        ("term.not-connected", "未连接"),
        ("term.no-sessions", "没有活动会话 - 点击主机的连接"),
        ("term.font", "字体"),
        ("term.clear", "清屏"),
        ("term.disconnect", "断开"),
        ("term.copy", "复制"),
        ("theme.dark", "深色"),
        ("theme.light", "浅色"),
        ("lang.en", "EN"),
        ("lang.zh", "中文"),
        ("ph.server-url", "http://127.0.0.1:8787"),
        ("ph.username", "用户名"),
        ("ph.password", "密码"),
        ("ph.port", "22"),
        ("ph.font", "Menlo"),
        ("status.signing-in", "登录中..."),
        ("status.registering", "注册中..."),
        ("status.signed-in", "已登录 - 加载远程主机..."),
        ("status.syncing", "同步中..."),
        ("status.sync-complete", "同步完成"),
        ("status.sync-failed", "同步失败：{0}"),
        ("status.deleted", "已删除"),
        ("status.deleted-local", "已在本地删除"),
        ("status.host-saved", "主机已保存 - 点击同步上传"),
        ("status.host-updated", "主机已更新"),
        ("status.connecting", "正在连接 {0} ({1}x{2})..."),
        ("status.disconnected", "已断开"),
        ("status.session-ended", "会话结束"),
        ("status.session-ended-label", "会话结束：{0}"),
        ("status.not-signed-in", "未登录"),
        ("status.enter-creds", "请输入用户名和密码"),
        ("status.invalid-url", "服务器地址无效：{0}"),
        ("status.save-failed", "保存失败：{0}"),
        ("status.font-saved-error", "无法保存字体：{0}"),
        ("status.name-required", "名称、主机和用户名为必填项"),
        ("status.no-host", "找不到该主机"),
        ("status.editing", "正在编辑主机 - 点击保存以更新"),
        ("status.adding-host", "正在添加新主机"),
        ("status.login-failed", "登录失败：{0}"),
        ("status.error", "错误：{0}"),
        ("status.copied", "已复制 {0} 个字符"),
    ];
    proof {
        reveal(zh_table);
        assert(pairs(r@) =~= zh_table());
    }
    r
}

// ---------------------------------------------------------------------------
// Languages
// ---------------------------------------------------------------------------

/// The supported language for a lower-case tag; unknown tags fall back to English.
pub open spec fn supported_lang(lower: Seq<char>) -> Seq<char> {
    let l = text::replaced(lower, "_"@, "-"@);
    if l == "zh"@ || text::begins_with(l, "zh-"@) {
        "zh"@
    } else {
        "en"@
    }
}

/// The supported language for a tag.
pub open spec fn normal_lang(lang: Seq<char>) -> Seq<char> {
    supported_lang(text::lowercase(lang))
}

/// The supported language for a lower-case tag; see [`normalize`].
pub fn supported(lower: &str) -> (r: String)
    ensures
        r@ == supported_lang(lower@),
{
    proof {
        reveal_strlit("_");
    }
    let l = text::replace(lower, "_", "-");
    if text::same_text(l.as_str(), "zh") || text::starts_with(l.as_str(), "zh-") {
        "zh".to_owned()
    } else {
        "en".to_owned()
    }
}

/// Normalise a BCP-47-ish tag to one of our supported codes. Unknown tags fall back to
/// English.
pub fn normalize(lang: &str) -> (r: String)
    ensures
        r@ == normal_lang(lang@),
{
    supported(text::to_lowercase(lang).as_str())
}

// ---------------------------------------------------------------------------
// Lookup
// ---------------------------------------------------------------------------

/// The texts of the current language, by their keys. There are none before a language is
/// set.
pub struct Strings {
    map: StringHashMap<String>,
}

/// Translations by their keys.
pub type Catalogue = Map<Seq<char>, Seq<char>>;

impl View for Strings {
    type V = Catalogue;

    closed spec fn view(&self) -> Catalogue {
        self.map@.map_values(|s: String| s@)
    }
}

/// A catalogue with a table read into it; a later entry replaces an earlier one.
pub open spec fn loaded(m: Catalogue, t: Table) -> Catalogue
    decreases t.len(),
{
    if t.len() == 0 {
        m
    } else {
        loaded(m, t.drop_last()).insert(t.last().0, t.last().1)
    }
}

/// The catalogue of a supported language. English is loaded first so any missing key in
/// the target language still resolves.
pub open spec fn catalogue(lang: Seq<char>) -> Catalogue {
    let base = loaded(Map::empty(), en_table());
    if lang == "zh"@ {
        loaded(base, zh_table())
    } else {
        base
    }
}

/// The text for a key, or the key itself where there is none.
pub open spec fn translated(m: Catalogue, key: Seq<char>) -> Seq<char> {
    if m.contains_key(key) {
        m[key]
    } else {
        key
    }
}

/// The placeholder of an argument: `{0}`, `{1}`, ...
pub open spec fn hole(i: nat) -> Seq<char> {
    "{"@ + text::decimal(i) + "}"@
}

/// A text with `{0}`, `{1}`, ... replaced by the first `n` arguments, one after the
/// other.
pub open spec fn filled(s: Seq<char>, args: Seq<Seq<char>>, n: int) -> Seq<char>
    decreases n,
{
    if n <= 0 {
        s
    } else {
        text::replaced(
            filled(s, args, n - 1),
            hole((n - 1) as nat),
            args[n - 1],
        )
    }
}

/// The translation of a key with its arguments filled in.
pub open spec fn told(m: Catalogue, key: Seq<char>, args: Seq<Seq<char>>) -> Seq<char> {
    filled(translated(m, key), args, args.len() as int)
}

/// The texts of some strings.
pub open spec fn texts(v: Seq<String>) -> Seq<Seq<char>> {
    v.map_values(|s: String| s@)
}

impl Strings {
    /// No texts.
    pub fn new() -> (r: Strings)
        ensures
            r@ == Catalogue::empty(),
    {
        let r = Strings { map: StringHashMap::new() };
        assert(r@ =~= Catalogue::empty());
        r
    }

    fn load(&mut self, t: &[(&'static str, &'static str)])
        ensures
            final(self)@ == loaded(old(self)@, pairs(t@)),
    {
        let ghost before = self@;
        let ghost all = pairs(t@);
        let mut i: usize = 0;
        assert(all.take(0) =~= Seq::empty());
        while i < t.len()
            invariant
                i <= t@.len(),
                all == pairs(t@),
                self@ == loaded(before, all.take(i as int)),
            decreases t@.len() - i,
        {
            let ghost m = self@;
            let (k, v) = t[i];
            self.map.insert(k.to_owned(), v.to_owned());
            proof {
                assert(all.take(i + 1).drop_last() =~= all.take(i as int));
                assert(all.take(i + 1).last() == (k@, v@));
                assert(self@ =~= m.insert(k@, v@));
            }
            i += 1;
        }
        assert(all.take(all.len() as int) =~= all);
    }
}

/// (Re)build the translation map for `lang`. English is loaded first so any missing key
/// in the target language still resolves. Add a language by adding a `xx()` function and
/// a branch below.
pub fn set_lang(strings: &mut Strings, lang: &str)
    ensures
        final(strings)@ == catalogue(normal_lang(lang@)),
{
    let lang = normalize(lang);
    strings.map.clear();
    assert(strings@ =~= Catalogue::empty());
    strings.load(en().as_slice());
    // Register additional languages here.
    if text::same_text(lang.as_str(), "zh") {
        strings.load(zh().as_slice());
    }
}

/// Look up `key` in the current language, falling back to the key itself.
pub fn t(strings: &Strings, key: &str) -> (r: String)
    ensures
        r@ == translated(strings@, key@),
{
    match strings.map.get(key) {
        Some(s) => s.clone(),
        None => key.to_owned(),
    }
}

/// Translate `key` and substitute `{0}`, `{1}`, ... with `args`.
pub fn tr(strings: &Strings, key: &str, args: &[String]) -> (r: String)
    ensures
        r@ == told(strings@, key@, texts(args@)),
{
    let mut s = t(strings, key);
    let ghost first = s@;
    let ghost all = texts(args@);
    let mut i: usize = 0;
    while i < args.len()
        invariant
            i <= args@.len(),
            all == texts(args@),
            s@ == filled(first, all, i as int),
        decreases args@.len() - i,
    {
        let mut from = text::concat("{", text::decimal_text(i as u64).as_str());
        from.push_str("}");
        proof {
            reveal_strlit("{");
            assert(all[i as int] == args@[i as int]@);
        }
        s = text::replace(s.as_str(), from.as_str(), args[i].as_str());
        i += 1;
    }
    s
}

// ---------------------------------------------------------------------------
// Laws
// ---------------------------------------------------------------------------

/// The last text that a table has for a key.
pub open spec fn entry_of(t: Table, key: Seq<char>) -> Option<Seq<char>>
    decreases t.len(),
{
    if t.len() == 0 {
        None
    } else if t.last().0 == key {
        Some(t.last().1)
    } else {
        entry_of(t.drop_last(), key)
    }
}

/// A table overrides the keys that it has, and no others.
pub proof fn law_table_overrides_its_keys(m: Catalogue, t: Table, key: Seq<char>)
    ensures
        translated(loaded(m, t), key) == match entry_of(t, key) {
            Some(s) => s,
            None => translated(m, key),
        },
        loaded(m, t).contains_key(key) <==> entry_of(t, key) is Some || m.contains_key(key),
    decreases t.len(),
{
    if t.len() > 0 {
        law_table_overrides_its_keys(m, t.drop_last(), key);
    }
}

/// The keys of a table.
pub open spec fn keys(t: Table) -> Seq<Seq<char>> {
    t.map_values(|p: (Seq<char>, Seq<char>)| p.0)
}

/// Every key of the Chinese table is one of the English table, and the other way round.
pub proof fn law_tables_have_the_same_keys()
    ensures
        keys(zh_table()) == keys(en_table()),
{
    reveal(en_table);
    reveal(zh_table);
    assert(keys(zh_table()) =~= keys(en_table()));
}

/// What a key gives in each language: its text there, failing that its English text,
/// failing that the key itself.
pub proof fn law_fallback(lang: Seq<char>, key: Seq<char>)
    ensures
        translated(catalogue(lang), key) == match (
            if lang == "zh"@ {
                entry_of(zh_table(), key)
            } else {
                None
            },
            entry_of(en_table(), key),
        ) {
            (Some(s), _) => s,
            (None, Some(s)) => s,
            (None, None) => key,
        },
{
    let base = loaded(Map::empty(), en_table());
    law_table_overrides_its_keys(Map::empty(), en_table(), key);
    law_table_overrides_its_keys(base, zh_table(), key);
}

proof fn lemma_entry_of_key(t: Table, i: int)
    requires
        0 <= i < t.len(),
    ensures
        entry_of(t, t[i].0) is Some,
    decreases t.len(),
{
    if t.last().0 != t[i].0 {
        lemma_entry_of_key(t.drop_last(), i);
    }
}

/// Every key of the tables has a text in every language.
pub proof fn law_every_key_is_translated(lang: Seq<char>, i: int)
    requires
        0 <= i < en_table().len(),
    ensures
        catalogue(lang).contains_key(en_table()[i].0),
{
    let key = en_table()[i].0;
    let base = loaded(Map::empty(), en_table());
    lemma_entry_of_key(en_table(), i);
    law_table_overrides_its_keys(Map::empty(), en_table(), key);
    law_table_overrides_its_keys(base, zh_table(), key);
}

/// The Chinese texts are for the tag `zh` and those that begin with it and a hyphen or an
/// underscore; the English ones are for all others.
pub proof fn law_languages(lower: Seq<char>)
    ensures
        ({
            let chinese = lower.len() >= 2 && lower[0] == 'z' && lower[1] == 'h' && (lower.len()
                == 2 || lower[2] == '-' || lower[2] == '_');
            supported_lang(lower) == if chinese {
                "zh"@
            } else {
                "en"@
            }
        }),
{
    reveal_strlit("_");
    reveal_strlit("-");
    reveal_strlit("zh");
    reveal_strlit("zh-");
    assert("_"@ =~= seq!['_']);
    assert("-"@ =~= seq!['-']);
    crate::keys::lemma_replaced_char(lower, '_', '-');
    let l = text::replaced(lower, "_"@, "-"@);
    assert(l.len() == lower.len());
    if l == "zh"@ {
        assert(l[0] == 'z' && l[1] == 'h');
    }
    if text::begins_with(l, "zh-"@) {
        let p = l.take(3);
        assert(p[0] == 'z' && p[1] == 'h' && p[2] == '-');
        assert(l[0] == p[0] && l[1] == p[1] && l[2] == p[2]);
    }
    if lower.len() >= 2 && lower[0] == 'z' && lower[1] == 'h' {
        if lower.len() == 2 {
            assert(l =~= "zh"@);
        } else if lower[2] == '-' || lower[2] == '_' {
            assert(l.take(3) =~= "zh-"@);
        }
    }
}

/// The case of a tag does not matter.
pub proof fn law_language_tags_have_no_case(lang: Seq<char>)
    ensures
        ({
            let lower = text::lowercase(lang);
            let chinese = lower.len() >= 2 && lower[0] == 'z' && lower[1] == 'h' && (lower.len()
                == 2 || lower[2] == '-' || lower[2] == '_');
            normal_lang(lang) == if chinese {
                "zh"@
            } else {
                "en"@
            }
        }),
{
    law_languages(text::lowercase(lang));
}

/// An argument takes the place of its placeholder, wherever that stands, and of nothing else.
pub proof fn law_one_argument(a: Seq<char>, b: Seq<char>, arg: Seq<char>)
    requires
        !a.contains('{'),
        !b.contains('{'),
    ensures
        filled(a + seq!['{', '0', '}'] + b, seq![arg], 1) == a + arg + b,
{
    reveal_strlit("{");
    reveal_strlit("}");
    text::law_decimal_is_positional(0, 0);
    let h = seq!['{', '0', '}'];
    assert(hole(0) =~= h);
    let s = a + h + b;
    assert(filled(s, seq![arg], 0) == s);
    lemma_replaced_behind(a, h, b, arg);
}

proof fn lemma_replaced_behind(a: Seq<char>, h: Seq<char>, b: Seq<char>, to: Seq<char>)
    requires
        h.len() > 0,
        !a.contains(h[0]),
        !b.contains(h[0]),
    ensures
        text::replaced(a + h + b, h, to) == a + to + b,
    decreases a.len(),
{
    let s = a + h + b;
    if a.len() == 0 {
        assert(s =~= h + b);
        text::law_replacing_step(h, to, ' ', b);
        lemma_replaced_without(b, h, to);
        assert(a + to + b =~= to + b);
    } else {
        let r = a.skip(1);
        assert(a.contains(a[0]));
        assert forall|c: char| r.contains(c) implies a.contains(c) by {
            let i = choose|i: int| 0 <= i < r.len() && r[i] == c;
            assert(a[i + 1] == c);
        }
        lemma_replaced_behind(r, h, b, to);
        assert(s =~= seq![a[0]] + (r + h + b));
        if text::begins_with(s, h) {
            assert(s.take(h.len() as int)[0] == s[0]);
        }
        text::law_replacing_step(h, to, a[0], r + h + b);
        assert(seq![a[0]] + (r + to + b) =~= a + to + b);
    }
}

proof fn lemma_replaced_without(b: Seq<char>, h: Seq<char>, to: Seq<char>)
    requires
        h.len() > 0,
        !b.contains(h[0]),
    ensures
        text::replaced(b, h, to) == b,
    decreases b.len(),
{
    if b.len() > 0 {
        let r = b.skip(1);
        assert(b.contains(b[0]));
        assert forall|c: char| r.contains(c) implies b.contains(c) by {
            let i = choose|i: int| 0 <= i < r.len() && r[i] == c;
            assert(b[i + 1] == c);
        }
        lemma_replaced_without(r, h, to);
        assert(b =~= seq![b[0]] + r);
        if text::begins_with(b, h) {
            assert(b.take(h.len() as int)[0] == b[0]);
        }
        text::law_replacing_step(h, to, b[0], r);
    } else {
        assert(b =~= Seq::empty());
        text::law_replacing_step(h, to, ' ', b);
    }
}

} // verus!
