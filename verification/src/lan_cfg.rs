//! Where the broker is and how the peer transport binds: `lan.ini`, with an override by address.
use crate::ini;
use crate::ini::EntryView;
use crate::text;
use vstd::prelude::*;

verus! {

/// The settings of the LAN stack.
#[derive(Clone, Debug)]
pub struct LanCfg {
    pub host: String,
    pub port: u16,
    pub ws_port: u16,
    /// The IPv4 address that peers are told; none means that it is detected.
    pub advertise_ip: Option<String>,
    /// The UDP port of the peer transport; 0 means any.
    pub udp_port: u16,
}

#[verifier::ext_equal]
pub struct LanCfgView {
    pub host: Seq<char>,
    pub port: u16,
    pub ws_port: u16,
    pub advertise_ip: Option<Seq<char>>,
    pub udp_port: u16,
}

/// The view of an optional text.
pub open spec fn opt_view(s: Option<String>) -> Option<Seq<char>> {
    match s {
        Some(t) => Some(t@),
        None => None,
    }
}

impl View for LanCfg {
    type V = LanCfgView;

    open spec fn view(&self) -> LanCfgView {
        LanCfgView {
            host: self.host@,
            port: self.port,
            ws_port: self.ws_port,
            advertise_ip: opt_view(self.advertise_ip),
            udp_port: self.udp_port,
        }
    }
}

impl LanCfgView {
    /// The settings without any file or override.
    pub open spec fn defaults() -> LanCfgView {
        LanCfgView {
            host: "127.0.0.1"@,
            port: 8080,
            ws_port: 8081,
            advertise_ip: None,
            udp_port: 0,
        }
    }

    pub open spec fn host_port(self) -> Seq<char> {
        self.host + ":"@ + text::decimal(self.port as nat)
    }

    pub open spec fn origin(self) -> Seq<char> {
        "http://"@ + self.host_port()
    }

    pub open spec fn ws_url(self) -> Seq<char> {
        "ws://"@ + self.host + ":"@ + text::decimal(self.ws_port as nat) + "/"@
    }

    /// The settings after one entry of a section. Unknown entries and numbers that are none
    /// change nothing.
    pub open spec fn set(self, section: Seq<char>, key: Seq<char>, value: Seq<char>) -> LanCfgView {
        let port = text::unsigned(value, 65535);
        if section == "server"@ && key == "host"@ {
            LanCfgView { host: value, ..self }
        } else if section == "server"@ && key == "port"@ {
            LanCfgView { port: or_else(port, self.port), ..self }
        } else if section == "server"@ && key == "ws_port"@ {
            LanCfgView { ws_port: or_else(port, self.ws_port), ..self }
        } else if section == "party"@ && key == "advertise_ip"@ && value.len() > 0 {
            LanCfgView { advertise_ip: Some(value), ..self }
        } else if section == "party"@ && key == "udp_port"@ {
            LanCfgView { udp_port: or_else(port, self.udp_port), ..self }
        } else {
            self
        }
    }

    /// The settings after several entries.
    pub open spec fn set_all(self, entries: Seq<EntryView>) -> LanCfgView
        decreases entries.len(),
    {
        if entries.len() == 0 {
            self
        } else {
            let e = entries[0];
            self.set(e.section, e.key, e.value).set_all(entries.drop_first())
        }
    }

    /// The settings with the broker at `raw`, which is `host:port`, `host` or `:port`.
    pub open spec fn with_stub(self, raw: Seq<char>) -> LanCfgView {
        let t = text::trimmed(raw);
        match text::find_last(t, ':') {
            Some(i) => LanCfgView {
                host: if i > 0 { t.take(i) } else { self.host },
                port: or_else(text::unsigned(t.skip(i + 1), 65535), self.port),
                ..self
            },
            None => LanCfgView { host: if t.len() > 0 { t } else { self.host }, ..self },
        }
    }
}

/// A port, or the one there was.
pub open spec fn or_else(port: Option<nat>, old_port: u16) -> u16 {
    match port {
        Some(n) => n as u16,
        None => old_port,
    }
}

/// The settings that a `lan.ini` and an override give, where there are any.
pub open spec fn loaded(file: Option<Seq<char>>, stub: Option<Seq<char>>) -> LanCfgView {
    let base = match file {
        Some(s) => LanCfgView::defaults().set_all(ini::settings(s)),
        None => LanCfgView::defaults(),
    };
    match stub {
        Some(raw) => base.with_stub(raw),
        None => base,
    }
}

/// A port read from a text, or the one there was.
fn port_or(s: &[char], old_port: u16) -> (r: u16)
    ensures
        r == or_else(text::unsigned(s@, 65535), old_port),
{
    match text::parse_unsigned(s, 65535) {
        Some(n) => n as u16,
        None => old_port,
    }
}

impl LanCfg {
    pub fn origin(&self) -> (r: String)
        ensures
            r@ == self@.origin(),
    {
        let mut r = String::new();
        r.append("http://");
        r.append(self.host_port().as_str());
        assert(r@ =~= self@.origin());
        r
    }

    pub fn host_port(&self) -> (r: String)
        ensures
            r@ == self@.host_port(),
    {
        let mut r = self.host.clone();
        r.append(":");
        text::push_decimal(&mut r, self.port as u64);
        r
    }

    pub fn ws_url(&self) -> (r: String)
        ensures
            r@ == self@.ws_url(),
    {
        let mut r = String::new();
        r.append("ws://");
        r.append(self.host.as_str());
        r.append(":");
        text::push_decimal(&mut r, self.ws_port as u64);
        r.append("/");
        assert(r@ =~= self@.ws_url());
        r
    }

    /// Takes in one entry of a section.
    fn set(&mut self, section: &[char], key: &[char], value: &[char])
        ensures
            final(self)@ == old(self)@.set(section@, key@, value@),
    {
        if text::is_text(section, "server") && text::is_text(key, "host") {
            self.host = text::text_of(value);
        } else if text::is_text(section, "server") && text::is_text(key, "port") {
            self.port = port_or(value, self.port);
        } else if text::is_text(section, "server") && text::is_text(key, "ws_port") {
            self.ws_port = port_or(value, self.ws_port);
        } else if text::is_text(section, "party") && text::is_text(key, "advertise_ip")
            && value.len() > 0 {
            self.advertise_ip = Some(text::text_of(value));
        } else if text::is_text(section, "party") && text::is_text(key, "udp_port") {
            self.udp_port = port_or(value, self.udp_port);
        }
    }

    /// Moves the broker to the address that `raw` names.
    fn set_stub(&mut self, raw: &[char])
        ensures
            final(self)@ == old(self)@.with_stub(raw@),
    {
        let t = text::trim(raw);
        match text::find_last_char(t, ':') {
            Some(i) => {
                if i > 0 {
                    self.host = text::text_of(text::head(t, i));
                }
                self.port = port_or(text::tail(t, i + 1), self.port);
            },
            None => {
                if t.len() > 0 {
                    self.host = text::text_of(t);
                }
            },
        }
    }
}

/// The settings that the text of a `lan.ini` and an override give, where there are any.
pub fn load_lan_cfg(file: Option<&str>, stub: Option<&str>) -> (r: LanCfg)
    ensures
        r@ == loaded(
            match file {
                Some(s) => Some(s@),
                None => None,
            },
            match stub {
                Some(s) => Some(s@),
                None => None,
            },
        ),
{
    let mut cfg = LanCfg {
        host: "127.0.0.1".to_owned(),
        port: 8080,
        ws_port: 8081,
        advertise_ip: None,
        udp_port: 0,
    };
    if let Some(s) = file {
        let entries = ini::read_settings(s);
        let ghost all = ini::settings(s@);
        let mut i: usize = 0;
        assert(all.skip(0) =~= all);
        while i < entries.len()
            invariant
                i <= entries@.len(),
                ini::views(entries@) == all,
                cfg@.set_all(all.skip(i as int)) == LanCfgView::defaults().set_all(all),
            decreases entries@.len() - i,
        {
            let e = &entries[i];
            assert(all.skip(i as int)[0] == e@);
            assert(all.skip(i as int).drop_first() =~= all.skip(i + 1));
            cfg.set(e.section.as_slice(), e.key.as_slice(), e.value.as_slice());
            i += 1;
        }
        assert(all.skip(i as int) =~= Seq::empty());
    }
    if let Some(raw) = stub {
        cfg.set_stub(text::chars_of(raw).as_slice());
    }
    cfg
}

/// A URL with its origin replaced by the broker's. A text that is no HTTP URL stays as it is.
pub open spec fn rewritten(url: Seq<char>, cfg: LanCfgView) -> Seq<char> {
    let l = text::lowered(url);
    if !text::begins(l, "http://"@) && !text::begins(l, "https://"@) {
        url
    } else {
        let rest = url.skip(text::find_text(url, "://"@)->0 + 3);
        let k = text::find(rest, '/');
        cfg.origin() + (if k < rest.len() { rest.skip(k) } else { "/"@ })
    }
}

/// Sends an HTTP URL to the broker, keeping its path and query.
pub fn rewrite_http_url_to_stub(url: &str, cfg: &LanCfg) -> (r: String)
    ensures
        r@ == rewritten(url@, cfg@),
{
    let all = text::chars_of(url);
    let l = text::to_lowered(all.as_slice());
    if !text::starts_with(l.as_slice(), text::chars_of("http://").as_slice()) && !text::starts_with(
        l.as_slice(),
        text::chars_of("https://").as_slice(),
    ) {
        return url.to_owned();
    }
    let mut r = cfg.origin();
    let mark = text::chars_of("://");
    proof {
        reveal_strlit("://");
        reveal_strlit("http://");
        reveal_strlit("https://");
        lemma_scheme_end(url@);
    }
    if let Some(i) = text::find_in(all.as_slice(), mark.as_slice()) {
        let rest = text::tail(all.as_slice(), i + 3);
        let k: usize = text::find_char(rest, '/');
        if k < rest.len() {
            r.append(text::text_of(text::tail(rest, k)).as_str());
        } else {
            r.append("/");
        }
    }
    r
}

/// An HTTP URL names its scheme.
proof fn lemma_scheme_end(url: Seq<char>)
    requires
        text::begins(text::lowered(url), "http://"@) || text::begins(
            text::lowered(url),
            "https://"@,
        ),
    ensures
        text::find_text(url, "://"@) is Some,
{
    reveal_strlit("://");
    reveal_strlit("http://");
    reveal_strlit("https://");
    let l = text::lowered(url);
    let k: int = if text::begins(l, "http://"@) { 4 } else { 5 };
    assert(l.take(k + 3)[k] == ':' && l.take(k + 3)[k + 1] == '/' && l.take(k + 3)[k + 2] == '/');
    assert(l[k] == text::lower(url[k]) && l[k + 1] == text::lower(url[k + 1]) && l[k + 2]
        == text::lower(url[k + 2]));
    assert(url.skip(k).take(3) =~= "://"@);
    text::lemma_find_text(url, "://"@, k);
}

}
