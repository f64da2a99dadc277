//! What the user reads, in both languages.

use vstd::prelude::*;

use crate::i18n;
use crate::i18n::Table;

verus! {

/// A number by which the keys of the texts are told apart.
spec fn mark(s: Seq<char>) -> int {
    s.len() + 1000 * (s[s.len() - 2] as int) + 1000000 * (s[s.len() - 6] as int) + 1000000000 * (s[(s.len() / 2) as int] as int)
}

/// The place of the key with a mark.
spec fn place(m: int) -> int {
    if m == 116046108009 {
        0
    } else if m == 117098108014 {
        1
    } else if m == 114101114016 {
        2
    } else if m == 115101109014 {
        3
    } else if m == 97115114014 {
        4
    } else if m == 46110111010 {
        5
    } else if m == 46110100010 {
        6
    } else if m == 46046105011 {
        7
    } else if m == 101103101014 {
        8
    } else if m == 103110105014 {
        9
    } else if m == 46110110009 {
        10
    } else if m == 108108117011 {
        11
    } else if m == 115115099011 {
        12
    } else if m == 111111099012 {
        13
    } else if m == 46110105009 {
        14
    } else if m == 111045116013 {
        15
    } else if m == 46115100008 {
        16
    } else if m == 46116105009 {
        17
    } else if m == 46115101008 {
        18
    } else if m == 46116109009 {
        19
    } else if m == 46116115009 {
        20
    } else if m == 46116114009 {
        21
    } else if m == 46116101009 {
        22
    } else if m == 46116118009 {
        23
    } else if m == 117117116011 {
        24
    } else if m == 101121116013 {
        25
    } else if m == 115112115015 {
        26
    } else if m == 97115114013 {
        27
    } else if m == 99110101018 {
        28
    } else if m == 115115110016 {
        29
    } else if m == 46109110009 {
        30
    } else if m == 99046097010 {
        31
    } else if m == 115111099015 {
        32
    } else if m == 46109112009 {
        33
    } else if m == 46101114010 {
        34
    } else if m == 46046104011 {
        35
    } else if m == 103097101007 {
        36
    } else if m == 103097122007 {
        37
    } else if m == 118101114013 {
        38
    } else if m == 101101109011 {
        39
    } else if m == 115115114011 {
        40
    } else if m == 112104114007 {
        41
    } else if m == 102104110007 {
        42
    } else if m == 105105105017 {
        43
    } else if m == 103116110018 {
        44
    } else if m == 105110105016 {
        45
    } else if m == 115121110014 {
        46
    } else if m == 99109116020 {
        47
    } else if m == 110102101018 {
        48
    } else if m == 100101101014 {
        49
    } else if m == 101045097020 {
        50
    } else if m == 111045101017 {
        51
    } else if m == 115112101019 {
        52
    } else if m == 111101110017 {
        53
    } else if m == 115110101019 {
        54
    } else if m == 115045101020 {
        55
    } else if m == 110045101026 {
        56
    } else if m == 45110105020 {
        57
    } else if m == 116045100018 {
        58
    } else if m == 118105114018 {
        59
    } else if m == 118102101018 {
        60
    } else if m == 45045111023 {
        61
    } else if m == 101113101020 {
        62
    } else if m == 110111115014 {
        63
    } else if m == 101100110014 {
        64
    } else if m == 100103115018 {
        65
    } else if m == 103102101019 {
        66
    } else if m == 46046111012 {
        67
    } else if m == 46099101013 {
        68
    } else {
        -1
    }
}

#[verifier::spinoff_prover]
proof fn lemma_place(i: int)
    requires
        0 <= i < 69,
    ensures
        i18n::en_table().len() == 69,
        place(mark(i18n::en_table()[i].0)) == i,
{
    reveal(i18n::en_table);
    if i == 0 {
        reveal_strlit("app.title");
    } else if i == 1 {
        reveal_strlit("login.subtitle");
    } else if i == 2 {
        reveal_strlit("login.server-url");
    } else if i == 3 {
        reveal_strlit("login.username");
    } else if i == 4 {
        reveal_strlit("login.password");
    } else if i == 5 {
        reveal_strlit("login.show");
    } else if i == 6 {
        reveal_strlit("login.hide");
    } else if i == 7 {
        reveal_strlit("login.login");
    } else if i == 8 {
        reveal_strlit("login.register");
    } else if i == 9 {
        reveal_strlit("main.signed-in");
    } else if i == 10 {
        reveal_strlit("main.sync");
    } else if i == 11 {
        reveal_strlit("main.logout");
    } else if i == 12 {
        reveal_strlit("main.search");
    } else if i == 13 {
        reveal_strlit("main.connect");
    } else if i == 14 {
        reveal_strlit("main.edit");
    } else if i == 15 {
        reveal_strlit("main.no-hosts");
    } else if i == 16 {
        reveal_strlit("host.add");
    } else if i == 17 {
        reveal_strlit("host.edit");
    } else if i == 18 {
        reveal_strlit("host.new");
    } else if i == 19 {
        reveal_strlit("host.name");
    } else if i == 20 {
        reveal_strlit("host.host");
    } else if i == 21 {
        reveal_strlit("host.port");
    } else if i == 22 {
        reveal_strlit("host.user");
    } else if i == 23 {
        reveal_strlit("host.save");
    } else if i == 24 {
        reveal_strlit("host.update");
    } else if i == 25 {
        reveal_strlit("host.key-path");
    } else if i == 26 {
        reveal_strlit("host.passphrase");
    } else if i == 27 {
        reveal_strlit("host.password");
    } else if i == 28 {
        reveal_strlit("term.not-connected");
    } else if i == 29 {
        reveal_strlit("term.no-sessions");
    } else if i == 30 {
        reveal_strlit("term.font");
    } else if i == 31 {
        reveal_strlit("term.clear");
    } else if i == 32 {
        reveal_strlit("term.disconnect");
    } else if i == 33 {
        reveal_strlit("term.copy");
    } else if i == 34 {
        reveal_strlit("theme.dark");
    } else if i == 35 {
        reveal_strlit("theme.light");
    } else if i == 36 {
        reveal_strlit("lang.en");
    } else if i == 37 {
        reveal_strlit("lang.zh");
    } else if i == 38 {
        reveal_strlit("ph.server-url");
    } else if i == 39 {
        reveal_strlit("ph.username");
    } else if i == 40 {
        reveal_strlit("ph.password");
    } else if i == 41 {
        reveal_strlit("ph.port");
    } else if i == 42 {
        reveal_strlit("ph.font");
    } else if i == 43 {
        reveal_strlit("status.signing-in");
    } else if i == 44 {
        reveal_strlit("status.registering");
    } else if i == 45 {
        reveal_strlit("status.signed-in");
    } else if i == 46 {
        reveal_strlit("status.syncing");
    } else if i == 47 {
        reveal_strlit("status.sync-complete");
    } else if i == 48 {
        reveal_strlit("status.sync-failed");
    } else if i == 49 {
        reveal_strlit("status.deleted");
    } else if i == 50 {
        reveal_strlit("status.deleted-local");
    } else if i == 51 {
        reveal_strlit("status.host-saved");
    } else if i == 52 {
        reveal_strlit("status.host-updated");
    } else if i == 53 {
        reveal_strlit("status.connecting");
    } else if i == 54 {
        reveal_strlit("status.disconnected");
    } else if i == 55 {
        reveal_strlit("status.session-ended");
    } else if i == 56 {
        reveal_strlit("status.session-ended-label");
    } else if i == 57 {
        reveal_strlit("status.not-signed-in");
    } else if i == 58 {
        reveal_strlit("status.enter-creds");
    } else if i == 59 {
        reveal_strlit("status.invalid-url");
    } else if i == 60 {
        reveal_strlit("status.save-failed");
    } else if i == 61 {
        reveal_strlit("status.font-saved-error");
    } else if i == 62 {
        reveal_strlit("status.name-required");
    } else if i == 63 {
        reveal_strlit("status.no-host");
    } else if i == 64 {
        reveal_strlit("status.editing");
    } else if i == 65 {
        reveal_strlit("status.adding-host");
    } else if i == 66 {
        reveal_strlit("status.login-failed");
    } else if i == 67 {
        reveal_strlit("status.error");
    } else if i == 68 {
        reveal_strlit("status.copied");
    }
}

proof fn lemma_entry_at(t: Table, i: int)
    requires
        0 <= i < t.len(),
        forall|j: int| 0 <= j < t.len() && j != i ==> (#[trigger] t[j]).0 != t[i].0,
    ensures
        i18n::entry_of(t, t[i].0) == Some(t[i].1),
    decreases t.len(),
{
    if i < t.len() - 1 {
        let f = t.drop_last();
        assert(t[t.len() - 1].0 != t[i].0);
        assert forall|j: int| 0 <= j < f.len() && j != i implies (#[trigger] f[j]).0 != f[i].0 by {
            assert(t[j].0 != t[i].0);
        }
        lemma_entry_at(f, i);
    }
}

/// No two texts have the same key, and every key gives its own text in each language.
pub proof fn law_every_key_gives_its_text(i: int)
    requires
        0 <= i < i18n::en_table().len(),
    ensures
        i18n::zh_table().len() == i18n::en_table().len(),
        forall|j: int|
            0 <= j < i18n::en_table().len() && j != i ==> (#[trigger] i18n::en_table()[j]).0
                != i18n::en_table()[i].0,
        i18n::translated(i18n::catalogue("en"@), i18n::en_table()[i].0) == i18n::en_table()[i].1,
        i18n::translated(i18n::catalogue("zh"@), i18n::zh_table()[i].0) == i18n::zh_table()[i].1,
{
    let (e, z) = (i18n::en_table(), i18n::zh_table());
    lemma_place(0);
    i18n::law_tables_have_the_same_keys();
    assert(i18n::keys(z).len() == z.len() && i18n::keys(e).len() == e.len());
    lemma_place(i);
    assert forall|j: int| 0 <= j < e.len() && j != i implies (#[trigger] e[j]).0 != e[i].0 by {
        lemma_place(j);
    }
    assert forall|j: int| 0 <= j < z.len() && j != i implies (#[trigger] z[j]).0 != z[i].0 by {
        assert(i18n::keys(z)[j] == i18n::keys(e)[j]);
        assert(i18n::keys(z)[i] == i18n::keys(e)[i]);
        assert(e[j].0 != e[i].0);
    }
    lemma_entry_at(e, i);
    lemma_entry_at(z, i);
    reveal_strlit("en");
    reveal_strlit("zh");
    assert("en"@[0] != "zh"@[0]);
    i18n::law_fallback("en"@, e[i].0);
    i18n::law_fallback("zh"@, z[i].0);
}

/// The texts of the application and of the page where a user signs in.
#[verifier::spinoff_prover]
pub proof fn law_texts_of_the_login_page()
    ensures
        ({
            let (en, zh) = (i18n::catalogue("en"@), i18n::catalogue("zh"@));
            &&& i18n::translated(en, "app.title"@) == "SSH Client"@
            &&& i18n::translated(zh, "app.title"@) == "SSH 客户端"@
            &&& i18n::translated(en, "login.subtitle"@) == "Sign in to your sync server"@
            &&& i18n::translated(zh, "login.subtitle"@) == "登录到同步服务器"@
            &&& i18n::translated(en, "login.server-url"@) == "Sync server URL"@
            &&& i18n::translated(zh, "login.server-url"@) == "同步服务器地址"@
            &&& i18n::translated(en, "login.username"@) == "Username"@
            &&& i18n::translated(zh, "login.username"@) == "用户名"@
            &&& i18n::translated(en, "login.password"@) == "Password"@
            &&& i18n::translated(zh, "login.password"@) == "密码"@
            &&& i18n::translated(en, "login.show"@) == "Show"@
            &&& i18n::translated(zh, "login.show"@) == "显示"@
            &&& i18n::translated(en, "login.hide"@) == "Hide"@
            &&& i18n::translated(zh, "login.hide"@) == "隐藏"@
            &&& i18n::translated(en, "login.login"@) == "Login"@
            &&& i18n::translated(zh, "login.login"@) == "登录"@
            &&& i18n::translated(en, "login.register"@) == "Register"@
            &&& i18n::translated(zh, "login.register"@) == "注册"@
        }),
{
    reveal(i18n::en_table);
    reveal(i18n::zh_table);
    law_every_key_gives_its_text(0);
    law_every_key_gives_its_text(1);
    law_every_key_gives_its_text(2);
    law_every_key_gives_its_text(3);
    law_every_key_gives_its_text(4);
    law_every_key_gives_its_text(5);
    law_every_key_gives_its_text(6);
    law_every_key_gives_its_text(7);
    law_every_key_gives_its_text(8);
}

/// The texts around the list of hosts.
#[verifier::spinoff_prover]
pub proof fn law_texts_of_the_main_page()
    ensures
        ({
            let (en, zh) = (i18n::catalogue("en"@), i18n::catalogue("zh"@));
            &&& i18n::translated(en, "main.signed-in"@) == "signed in as "@
            &&& i18n::translated(zh, "main.signed-in"@) == "已登录："@
            &&& i18n::translated(en, "main.sync"@) == "Sync"@
            &&& i18n::translated(zh, "main.sync"@) == "同步"@
            &&& i18n::translated(en, "main.logout"@) == "Logout"@
            &&& i18n::translated(zh, "main.logout"@) == "退出"@
            &&& i18n::translated(en, "main.search"@) == "search hosts"@
            &&& i18n::translated(zh, "main.search"@) == "搜索主机"@
            &&& i18n::translated(en, "main.connect"@) == "Connect"@
            &&& i18n::translated(zh, "main.connect"@) == "连接"@
            &&& i18n::translated(en, "main.edit"@) == "Edit"@
            &&& i18n::translated(zh, "main.edit"@) == "编辑"@
            &&& i18n::translated(en, "main.no-hosts"@) == "no hosts yet - add one below"@
            &&& i18n::translated(zh, "main.no-hosts"@) == "还没有主机 - 在下方添加"@
        }),
{
    reveal(i18n::en_table);
    reveal(i18n::zh_table);
    law_every_key_gives_its_text(9);
    law_every_key_gives_its_text(10);
    law_every_key_gives_its_text(11);
    law_every_key_gives_its_text(12);
    law_every_key_gives_its_text(13);
    law_every_key_gives_its_text(14);
    law_every_key_gives_its_text(15);
}

/// The texts of the form in which a host is entered.
#[verifier::spinoff_prover]
pub proof fn law_texts_of_the_host_form()
    ensures
        ({
            let (en, zh) = (i18n::catalogue("en"@), i18n::catalogue("zh"@));
            &&& i18n::translated(en, "host.add"@) == "Add host"@
            &&& i18n::translated(zh, "host.add"@) == "添加主机"@
            &&& i18n::translated(en, "host.edit"@) == "Edit host"@
            &&& i18n::translated(zh, "host.edit"@) == "编辑主机"@
            &&& i18n::translated(en, "host.new"@) == "New"@
            &&& i18n::translated(zh, "host.new"@) == "新建"@
            &&& i18n::translated(en, "host.name"@) == "Name"@
            &&& i18n::translated(zh, "host.name"@) == "名称"@
            &&& i18n::translated(en, "host.host"@) == "Host"@
            &&& i18n::translated(zh, "host.host"@) == "主机"@
            &&& i18n::translated(en, "host.port"@) == "Port"@
            &&& i18n::translated(zh, "host.port"@) == "端口"@
            &&& i18n::translated(en, "host.user"@) == "Username"@
            &&& i18n::translated(zh, "host.user"@) == "用户名"@
            &&& i18n::translated(en, "host.save"@) == "Save host"@
            &&& i18n::translated(zh, "host.save"@) == "保存主机"@
            &&& i18n::translated(en, "host.update"@) == "Update host"@
            &&& i18n::translated(zh, "host.update"@) == "更新主机"@
            &&& i18n::translated(en, "host.key-path"@) == "Key path (~/.ssh/id_rsa)"@
            &&& i18n::translated(zh, "host.key-path"@) == "密钥路径 (~/.ssh/id_rsa)"@
            &&& i18n::translated(en, "host.passphrase"@) == "Key passphrase (synced encrypted)"@
            &&& i18n::translated(zh, "host.passphrase"@) == "密钥口令（加密同步）"@
            &&& i18n::translated(en, "host.password"@) == "Password"@
            &&& i18n::translated(zh, "host.password"@) == "密码"@
        }),
{
    reveal(i18n::en_table);
    reveal(i18n::zh_table);
    law_every_key_gives_its_text(16);
    law_every_key_gives_its_text(17);
    law_every_key_gives_its_text(18);
    law_every_key_gives_its_text(19);
    law_every_key_gives_its_text(20);
    law_every_key_gives_its_text(21);
    law_every_key_gives_its_text(22);
    law_every_key_gives_its_text(23);
    law_every_key_gives_its_text(24);
    law_every_key_gives_its_text(25);
    law_every_key_gives_its_text(26);
    law_every_key_gives_its_text(27);
}

/// The texts around the terminal.
#[verifier::spinoff_prover]
pub proof fn law_texts_of_the_terminal()
    ensures
        ({
            let (en, zh) = (i18n::catalogue("en"@), i18n::catalogue("zh"@));
            &&& i18n::translated(en, "term.not-connected"@) == "not connected"@
            &&& i18n::translated(zh, "term.not-connected"@) == "未连接"@
            &&& i18n::translated(en, "term.no-sessions"@) == "no active sessions - click Connect on a host"@
            &&& i18n::translated(zh, "term.no-sessions"@) == "没有活动会话 - 点击主机的连接"@
            &&& i18n::translated(en, "term.font"@) == "Font"@
            &&& i18n::translated(zh, "term.font"@) == "字体"@
            &&& i18n::translated(en, "term.clear"@) == "Clear"@
            &&& i18n::translated(zh, "term.clear"@) == "清屏"@
            &&& i18n::translated(en, "term.disconnect"@) == "Disconnect"@
            &&& i18n::translated(zh, "term.disconnect"@) == "断开"@
            &&& i18n::translated(en, "term.copy"@) == "Copy"@
            &&& i18n::translated(zh, "term.copy"@) == "复制"@
        }),
{
    reveal(i18n::en_table);
    reveal(i18n::zh_table);
    law_every_key_gives_its_text(28);
    law_every_key_gives_its_text(29);
    law_every_key_gives_its_text(30);
    law_every_key_gives_its_text(31);
    law_every_key_gives_its_text(32);
    law_every_key_gives_its_text(33);
}

/// The texts of the settings, and what empty fields show.
#[verifier::spinoff_prover]
pub proof fn law_texts_of_the_settings()
    ensures
        ({
            let (en, zh) = (i18n::catalogue("en"@), i18n::catalogue("zh"@));
            &&& i18n::translated(en, "theme.dark"@) == "Dark"@
            &&& i18n::translated(zh, "theme.dark"@) == "深色"@
            &&& i18n::translated(en, "theme.light"@) == "Light"@
            &&& i18n::translated(zh, "theme.light"@) == "浅色"@
            &&& i18n::translated(en, "lang.en"@) == "EN"@
            &&& i18n::translated(zh, "lang.en"@) == "EN"@
            &&& i18n::translated(en, "lang.zh"@) == "中文"@
            &&& i18n::translated(zh, "lang.zh"@) == "中文"@
            &&& i18n::translated(en, "ph.server-url"@) == "http://127.0.0.1:8787"@
            &&& i18n::translated(zh, "ph.server-url"@) == "http://127.0.0.1:8787"@
            &&& i18n::translated(en, "ph.username"@) == "username"@
            &&& i18n::translated(zh, "ph.username"@) == "用户名"@
            &&& i18n::translated(en, "ph.password"@) == "password"@
            &&& i18n::translated(zh, "ph.password"@) == "密码"@
            &&& i18n::translated(en, "ph.port"@) == "22"@
            &&& i18n::translated(zh, "ph.port"@) == "22"@
            &&& i18n::translated(en, "ph.font"@) == "Menlo"@
            &&& i18n::translated(zh, "ph.font"@) == "Menlo"@
        }),
{
    reveal(i18n::en_table);
    reveal(i18n::zh_table);
    law_every_key_gives_its_text(34);
    law_every_key_gives_its_text(35);
    law_every_key_gives_its_text(36);
    law_every_key_gives_its_text(37);
    law_every_key_gives_its_text(38);
    law_every_key_gives_its_text(39);
    law_every_key_gives_its_text(40);
    law_every_key_gives_its_text(41);
    law_every_key_gives_its_text(42);
}

/// What the status line tells of work in the background and of hosts, first part.
#[verifier::spinoff_prover]
pub proof fn law_texts_of_work_and_hosts()
    ensures
        ({
            let (en, zh) = (i18n::catalogue("en"@), i18n::catalogue("zh"@));
            &&& i18n::translated(en, "status.signing-in"@) == "signing in..."@
            &&& i18n::translated(zh, "status.signing-in"@) == "登录中..."@
            &&& i18n::translated(en, "status.registering"@) == "registering..."@
            &&& i18n::translated(zh, "status.registering"@) == "注册中..."@
            &&& i18n::translated(en, "status.signed-in"@) == "signed in - loading remote hosts..."@
            &&& i18n::translated(zh, "status.signed-in"@) == "已登录 - 加载远程主机..."@
            &&& i18n::translated(en, "status.syncing"@) == "syncing..."@
            &&& i18n::translated(zh, "status.syncing"@) == "同步中..."@
            &&& i18n::translated(en, "status.sync-complete"@) == "sync complete"@
            &&& i18n::translated(zh, "status.sync-complete"@) == "同步完成"@
            &&& i18n::translated(en, "status.sync-failed"@) == "sync failed: {0}"@
            &&& i18n::translated(zh, "status.sync-failed"@) == "同步失败：{0}"@
            &&& i18n::translated(en, "status.deleted"@) == "deleted"@
            &&& i18n::translated(zh, "status.deleted"@) == "已删除"@
            &&& i18n::translated(en, "status.deleted-local"@) == "deleted locally"@
            &&& i18n::translated(zh, "status.deleted-local"@) == "已在本地删除"@
            &&& i18n::translated(en, "status.host-saved"@) == "host saved - click Sync to upload"@
            &&& i18n::translated(zh, "status.host-saved"@) == "主机已保存 - 点击同步上传"@
            &&& i18n::translated(en, "status.host-updated"@) == "host updated"@
            &&& i18n::translated(zh, "status.host-updated"@) == "主机已更新"@
            &&& i18n::translated(en, "status.connecting"@) == "connecting to {0} ({1}x{2})..."@
            &&& i18n::translated(zh, "status.connecting"@) == "正在连接 {0} ({1}x{2})..."@
            &&& i18n::translated(en, "status.disconnected"@) == "disconnected"@
            &&& i18n::translated(zh, "status.disconnected"@) == "已断开"@
            &&& i18n::translated(en, "status.session-ended"@) == "session ended"@
            &&& i18n::translated(zh, "status.session-ended"@) == "会话结束"@
        }),
{
    reveal(i18n::en_table);
    reveal(i18n::zh_table);
    law_every_key_gives_its_text(43);
    law_every_key_gives_its_text(44);
    law_every_key_gives_its_text(45);
    law_every_key_gives_its_text(46);
    law_every_key_gives_its_text(47);
    law_every_key_gives_its_text(48);
    law_every_key_gives_its_text(49);
    law_every_key_gives_its_text(50);
    law_every_key_gives_its_text(51);
    law_every_key_gives_its_text(52);
    law_every_key_gives_its_text(53);
    law_every_key_gives_its_text(54);
    law_every_key_gives_its_text(55);
}

/// What the status line tells of sessions and errors, and the rest.
#[verifier::spinoff_prover]
pub proof fn law_texts_of_sessions_and_errors()
    ensures
        ({
            let (en, zh) = (i18n::catalogue("en"@), i18n::catalogue("zh"@));
            &&& i18n::translated(en, "status.session-ended-label"@) == "session ended: {0}"@
            &&& i18n::translated(zh, "status.session-ended-label"@) == "会话结束：{0}"@
            &&& i18n::translated(en, "status.not-signed-in"@) == "not signed in"@
            &&& i18n::translated(zh, "status.not-signed-in"@) == "未登录"@
            &&& i18n::translated(en, "status.enter-creds"@) == "enter username and password"@
            &&& i18n::translated(zh, "status.enter-creds"@) == "请输入用户名和密码"@
            &&& i18n::translated(en, "status.invalid-url"@) == "invalid server url: {0}"@
            &&& i18n::translated(zh, "status.invalid-url"@) == "服务器地址无效：{0}"@
            &&& i18n::translated(en, "status.save-failed"@) == "save failed: {0}"@
            &&& i18n::translated(zh, "status.save-failed"@) == "保存失败：{0}"@
            &&& i18n::translated(en, "status.font-saved-error"@) == "could not save font: {0}"@
            &&& i18n::translated(zh, "status.font-saved-error"@) == "无法保存字体：{0}"@
            &&& i18n::translated(en, "status.name-required"@) == "name, host and username are required"@
            &&& i18n::translated(zh, "status.name-required"@) == "名称、主机和用户名为必填项"@
            &&& i18n::translated(en, "status.no-host"@) == "no such host"@
            &&& i18n::translated(zh, "status.no-host"@) == "找不到该主机"@
            &&& i18n::translated(en, "status.editing"@) == "editing host - click Save to update"@
            &&& i18n::translated(zh, "status.editing"@) == "正在编辑主机 - 点击保存以更新"@
            &&& i18n::translated(en, "status.adding-host"@) == "adding a new host"@
            &&& i18n::translated(zh, "status.adding-host"@) == "正在添加新主机"@
            &&& i18n::translated(en, "status.login-failed"@) == "login failed: {0}"@
            &&& i18n::translated(zh, "status.login-failed"@) == "登录失败：{0}"@
            &&& i18n::translated(en, "status.error"@) == "error: {0}"@
            &&& i18n::translated(zh, "status.error"@) == "错误：{0}"@
            &&& i18n::translated(en, "status.copied"@) == "copied {0} chars"@
            &&& i18n::translated(zh, "status.copied"@) == "已复制 {0} 个字符"@
        }),
{
    reveal(i18n::en_table);
    reveal(i18n::zh_table);
    law_every_key_gives_its_text(56);
    law_every_key_gives_its_text(57);
    law_every_key_gives_its_text(58);
    law_every_key_gives_its_text(59);
    law_every_key_gives_its_text(60);
    law_every_key_gives_its_text(61);
    law_every_key_gives_its_text(62);
    law_every_key_gives_its_text(63);
    law_every_key_gives_its_text(64);
    law_every_key_gives_its_text(65);
    law_every_key_gives_its_text(66);
    law_every_key_gives_its_text(67);
    law_every_key_gives_its_text(68);
}

} // verus!
