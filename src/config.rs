//! The upload, interface and authentication settings, read from the
//! sections of a configuration file.
use crate::errors::AppError;
use vstd::prelude::*;

verus! {

/// The upload ceiling when the configuration names none, in bytes.
pub const DEFAULT_MAX_SIZE: usize = 1000000000;

/// One `[name]` section of a configuration file, its properties in file
/// order.
#[derive(Debug, Clone)]
pub struct ConfigSection {
    pub name: String,
    pub properties: Vec<(String, String)>,
}

/// The first section called `name`.
pub open spec fn section_spec(cs: Seq<ConfigSection>, name: Seq<char>) -> Option<ConfigSection>
    decreases cs.len(),
{
    if cs.len() == 0 {
        None
    } else if cs[0].name@ == name {
        Some(cs[0])
    } else {
        section_spec(cs.drop_first(), name)
    }
}

/// The value of the first property called `key`.
pub open spec fn property_spec(ps: Seq<(String, String)>, key: Seq<char>) -> Option<Seq<char>>
    decreases ps.len(),
{
    if ps.len() == 0 {
        None
    } else if ps[0].0@ == key {
        Some(ps[0].1@)
    } else {
        property_spec(ps.drop_first(), key)
    }
}

/// The value of `key` in the first section called `name`.
pub open spec fn setting(cs: Seq<ConfigSection>, name: Seq<char>, key: Seq<char>) -> Option<
    Seq<char>,
> {
    match section_spec(cs, name) {
        Some(s) => property_spec(s.properties@, key),
        None => None,
    }
}

/// An ASCII decimal digit.
pub open spec fn is_digit(c: char) -> bool {
    '0' <= c && c <= '9'
}

/// The number that a run of decimal digits writes.
pub open spec fn digits_value(s: Seq<char>) -> nat
    decreases s.len(),
{
    if s.len() == 0 {
        0
    } else {
        digits_value(s.drop_last()) * 10 + (s.last() as nat - '0' as nat) as nat
    }
}

/// What `usize::from_str` makes of `s`: an optional `+`, then one or more
/// decimal digits whose value fits in a `usize`.
pub open spec fn parsed_usize(s: Seq<char>) -> Option<usize> {
    parsed_digits(unsigned_part(s))
}

/// `s` without one leading `+`.
pub open spec fn unsigned_part(s: Seq<char>) -> Seq<char> {
    if s.len() > 0 && s[0] == '+' {
        s.drop_first()
    } else {
        s
    }
}

/// The value of a nonempty run of decimal digits that fits in a `usize`.
pub open spec fn parsed_digits(d: Seq<char>) -> Option<usize> {
    if d.len() > 0 && (forall|i: int| 0 <= i < d.len() ==> is_digit(#[trigger] d[i]))
        && digits_value(d) <= usize::MAX {
        Some(digits_value(d) as usize)
    } else {
        None
    }
}

proof fn lemma_digits_value_grows(s: Seq<char>, n: int)
    requires
        0 <= n <= s.len(),
        forall|i: int| 0 <= i < s.len() ==> is_digit(#[trigger] s[i]),
    ensures
        digits_value(s.subrange(0, n)) <= digits_value(s),
    decreases s.len() - n,
{
    if n < s.len() {
        lemma_digits_value_grows(s, n + 1);
        assert(s.subrange(0, n + 1).drop_last() =~= s.subrange(0, n));
    } else {
        assert(s.subrange(0, n) =~= s);
    }
}

/// Parses a decimal `usize` as `usize::from_str` does.
pub fn parse_usize(s: &str) -> (r: Option<usize>)
    ensures
        r == parsed_usize(s@),
{
    let n = s.unicode_len();
    let mut start: usize = 0;
    if n > 0 && s.get_char(0) == '+' {
        start = 1;
    }
    let ghost d = unsigned_part(s@);
    assert(d =~= s@.subrange(start as int, n as int));
    if start == n {
        return None;
    }
    let mut v: usize = 0;
    let mut i: usize = start;
    while i < n
        invariant
            start <= i <= n,
            n == s@.len(),
            d =~= s@.subrange(start as int, n as int),
            d == unsigned_part(s@),
            forall|k: int| 0 <= k < i - start ==> is_digit(#[trigger] d[k]),
            v == digits_value(d.subrange(0, i - start)),
        decreases n - i,
    {
        let c = s.get_char(i);
        assert(c == d[i - start]);
        if !('0' <= c && c <= '9') {
            assert(!is_digit(d[i - start]));
            return None;
        }
        let digit = (c as u32 - '0' as u32) as usize;
        assert(d.subrange(0, i - start + 1).drop_last() =~= d.subrange(0, i - start));
        assert(d.subrange(0, i - start + 1).last() == c);
        assert(digits_value(d.subrange(0, i - start + 1)) == v * 10 + digit);
        if v > (usize::MAX - digit) / 10 {
            proof {
                assert(v * 10 + digit > usize::MAX) by (nonlinear_arith)
                    requires
                        v > (usize::MAX - digit) / 10,
                        digit <= 9,
                ;
                if forall|k: int| 0 <= k < d.len() ==> is_digit(#[trigger] d[k]) {
                    lemma_digits_value_grows(d, i - start + 1);
                }
            }
            return None;
        }
        proof {
            assert(v * 10 + digit <= usize::MAX) by (nonlinear_arith)
                requires
                    v <= (usize::MAX - digit) / 10,
                    digit <= 9,
            ;
        }
        v = v * 10 + digit;
        i = i + 1;
    }
    assert(d.subrange(0, n - start) =~= d);
    Some(v)
}

/// The first section called `name`.
fn find_section<'a>(cs: &'a Vec<ConfigSection>, name: &str) -> (r: Option<&'a ConfigSection>)
    ensures
        r is Some <==> section_spec(cs@, name@) is Some,
        r is Some ==> *r->Some_0 == section_spec(cs@, name@)->Some_0,
{
    let wanted = String::from_str(name);
    let mut i: usize = 0;
    assert(cs@.skip(0) =~= cs@);
    while i < cs.len()
        invariant
            i <= cs@.len(),
            wanted@ == name@,
            section_spec(cs@, name@) == section_spec(cs@.skip(i as int), name@),
        decreases cs.len() - i,
    {
        assert(cs@.skip(i as int)[0] == cs@[i as int]);
        assert(cs@.skip(i as int).drop_first() =~= cs@.skip(i + 1));
        if cs[i].name == wanted {
            return Some(&cs[i]);
        }
        i = i + 1;
    }
    None
}

/// The value of the first property called `key`.
fn find_property<'a>(ps: &'a Vec<(String, String)>, key: &str) -> (r: Option<&'a String>)
    ensures
        r is Some <==> property_spec(ps@, key@) is Some,
        r is Some ==> r->Some_0@ == property_spec(ps@, key@)->Some_0,
{
    let wanted = String::from_str(key);
    let mut i: usize = 0;
    assert(ps@.skip(0) =~= ps@);
    while i < ps.len()
        invariant
            i <= ps@.len(),
            wanted@ == key@,
            property_spec(ps@, key@) == property_spec(ps@.skip(i as int), key@),
        decreases ps.len() - i,
    {
        assert(ps@.skip(i as int)[0] == ps@[i as int]);
        assert(ps@.skip(i as int).drop_first() =~= ps@.skip(i + 1));
        if ps[i].0 == wanted {
            return Some(&ps[i].1);
        }
        i = i + 1;
    }
    None
}

/// The value of `key` in the first section called `name`.
fn find_setting<'a>(cs: &'a Vec<ConfigSection>, name: &str, key: &str) -> (r: Option<&'a String>)
    ensures
        r is Some <==> setting(cs@, name@, key@) is Some,
        r is Some ==> r->Some_0@ == setting(cs@, name@, key@)->Some_0,
{
    match find_section(cs, name) {
        Some(section) => find_property(&section.properties, key),
        None => None,
    }
}

/// The `[upload]` section: the size ceiling of an upload and where
/// containers are stored.
#[derive(Debug, Clone)]
pub struct UploadConfiguration {
    max_size: usize,
    upload_directory: String,
}

/// The ceiling that the `max_size` setting `v` gives: its value when it
/// parses as a `usize`, else the default.
pub open spec fn max_size_setting(v: Option<Seq<char>>) -> usize {
    match v {
        Some(t) => match parsed_usize(t) {
            Some(n) => n,
            None => DEFAULT_MAX_SIZE,
        },
        None => DEFAULT_MAX_SIZE,
    }
}

impl UploadConfiguration {
    pub fn section_name() -> (r: &'static str)
        ensures
            r@ == "upload"@,
    {
        "upload"
    }

    /// Reads the `[upload]` section of `configs`: `max_size` (the default
    /// when missing or not a number) and `upload_directory`
    /// (`default_directory` when missing). Fails when the section is
    /// missing. Whether the directory can be used is the caller's check.
    pub fn try_from(configs: &Vec<ConfigSection>, default_directory: String) -> (r: Result<
        UploadConfiguration,
        AppError,
    >)
        ensures
            r is Err <==> section_spec(configs@, "upload"@) is None,
            r is Err ==> r->Err_0 is InitError,
            r is Ok ==> r->Ok_0.max_size_spec() == max_size_setting(
                setting(configs@, "upload"@, "max_size"@),
            ),
            r is Ok ==> r->Ok_0.upload_directory_spec() == match setting(
                configs@,
                "upload"@,
                "upload_directory"@,
            ) {
                Some(dir) => dir,
                None => default_directory@,
            },
    {
        proof {
            reveal_strlit("upload");
            reveal_strlit("max_size");
            reveal_strlit("upload_directory");
        }
        let name = Self::section_name();
        match find_section(configs, name) {
            None => Err(
                AppError::InitError(
                    String::from_str("Section [upload] is missing from configuration file"),
                ),
            ),
            Some(section) => {
                let max_size = match find_property(&section.properties, "max_size") {
                    Some(text) => match parse_usize(text.as_str()) {
                        Some(n) => n,
                        None => DEFAULT_MAX_SIZE,
                    },
                    None => DEFAULT_MAX_SIZE,
                };
                let upload_directory = match find_property(
                    &section.properties,
                    "upload_directory",
                ) {
                    Some(dir) => dir.clone(),
                    None => default_directory,
                };
                Ok(UploadConfiguration { max_size, upload_directory })
            },
        }
    }

    pub closed spec fn max_size_spec(&self) -> usize {
        self.max_size
    }

    pub closed spec fn upload_directory_spec(&self) -> Seq<char> {
        self.upload_directory@
    }

    pub fn max_size(&self) -> (r: usize)
        ensures
            r == self.max_size_spec(),
    {
        self.max_size
    }

    pub fn upload_directory(&self) -> (r: &String)
        ensures
            r@ == self.upload_directory_spec(),
    {
        &self.upload_directory
    }
}

/// The `[ui]` section: where the page templates are.
#[derive(Debug, Clone)]
pub struct UiConfiguration {
    tera_templates: String,
}

impl UiConfiguration {
    pub fn section_name() -> (r: &'static str)
        ensures
            r@ == "ui"@,
    {
        "ui"
    }

    /// Reads `tera_templates` from the `[ui]` section of `configs`. Fails
    /// when the section or the setting is missing. Whether the directory
    /// exists is the caller's check.
    pub fn try_from(configs: &Vec<ConfigSection>) -> (r: Result<UiConfiguration, AppError>)
        ensures
            r is Err <==> setting(configs@, "ui"@, "tera_templates"@) is None,
            r is Err ==> r->Err_0 is InitError,
            r is Ok ==> r->Ok_0.tera_templates_spec() == setting(
                configs@,
                "ui"@,
                "tera_templates"@,
            )->Some_0,
    {
        proof {
            reveal_strlit("ui");
            reveal_strlit("tera_templates");
        }
        let name = Self::section_name();
        match find_section(configs, name) {
            None => Err(
                AppError::InitError(
                    String::from_str("Section [ui] is missing from configuration file"),
                ),
            ),
            Some(section) => match find_property(&section.properties, "tera_templates") {
                Some(dir) => Ok(UiConfiguration { tera_templates: dir.clone() }),
                None => Err(
                    AppError::InitError(
                        String::from_str("Missing tera_templates from section: [ui]"),
                    ),
                ),
            },
        }
    }

    pub closed spec fn tera_templates_spec(&self) -> Seq<char> {
        self.tera_templates@
    }

    pub fn tera_templates(&self) -> (r: &String)
        ensures
            r@ == self.tera_templates_spec(),
    {
        &self.tera_templates
    }
}

/// How users who list the stored files are authenticated.
#[derive(Debug, Clone)]
pub enum AuthStrategy {
    /// A file of `user password` lines.
    File(String),
    /// A PAM service of the operating system, by name.
    PamModule(String),
}

/// The strategy that the `[server]` section names, `auth_file` by default.
pub open spec fn strategy_name(cs: Seq<ConfigSection>) -> Seq<char> {
    match setting(cs, "server"@, "auth_strategy"@) {
        Some(s) => s,
        None => "auth_file"@,
    }
}

/// `a` is the strategy that `cs` names: the password file that
/// `[auth_file]` names (default `users.txt`) for `auth_file`, else the PAM
/// service of the strategy's own section.
pub open spec fn strategy_read(cs: Seq<ConfigSection>, a: AuthStrategy) -> bool {
    if strategy_name(cs) == "auth_file"@ {
        a is File && a->File_0@ == match setting(cs, "auth_file"@, "user_pass_file"@) {
            Some(p) => p,
            None => "users.txt"@,
        }
    } else {
        a is PamModule && a->PamModule_0@ == setting(
            cs,
            strategy_name(cs),
            "pam_module_name"@,
        )->Some_0
    }
}

impl AuthStrategy {
    /// Reads the authentication strategy: `auth_strategy` of `[server]`
    /// (default `auth_file`). For `auth_file`, the password file is
    /// `user_pass_file` of `[auth_file]` (default `users.txt`); whether it
    /// can be read is the caller's check. Any other strategy names the
    /// section whose `pam_module_name` gives the PAM service, and fails
    /// when it is missing.
    pub fn try_from(configs: &Vec<ConfigSection>) -> (r: Result<AuthStrategy, AppError>)
        ensures
            r is Ok <==> auth_strategy_readable(configs@),
            r is Ok ==> strategy_read(configs@, r->Ok_0),
            r is Err ==> r->Err_0 is InitError,
    {
        proof {
            reveal_strlit("server");
            reveal_strlit("auth_strategy");
            reveal_strlit("auth_file");
            reveal_strlit("user_pass_file");
            reveal_strlit("users.txt");
            reveal_strlit("pam_module_name");
        }
        let strategy = match find_setting(configs, "server", "auth_strategy") {
            Some(s) => s.clone(),
            None => String::from_str("auth_file"),
        };
        let file_strategy = String::from_str("auth_file");
        if strategy == file_strategy {
            match find_setting(configs, "auth_file", "user_pass_file") {
                Some(p) => Ok(AuthStrategy::File(p.clone())),
                None => Ok(AuthStrategy::File(String::from_str("users.txt"))),
            }
        } else {
            match find_setting(configs, strategy.as_str(), "pam_module_name") {
                Some(m) => Ok(AuthStrategy::PamModule(m.clone())),
                None => Err(
                    AppError::InitError(
                        String::from_str("Missing pam module name in section:[").concat(
                            strategy.as_str(),
                        ).concat("]"),
                    ),
                ),
            }
        }
    }
}

/// Workers when the configuration names no number.
pub const DEFAULT_NUMBER_OF_THREADS: u16 = 1;

/// The access-log line format when the configuration names none.
pub const COMMON_LOG_FORMAT: &'static str = "%a %t \"%r\" %s %b \"%{Referer}i\" \"%{User-Agent}i\" %T \"%{X-Correlation-Id}i\"";

/// What `u16::from_str` makes of `s`.
pub open spec fn parsed_u16(s: Seq<char>) -> Option<u16> {
    match parsed_usize(s) {
        Some(n) => if n <= u16::MAX {
            Some(n as u16)
        } else {
            None
        },
        None => None,
    }
}

/// Parses a decimal `u16` as `u16::from_str` does.
pub fn parse_u16(s: &str) -> (r: Option<u16>)
    ensures
        r == parsed_u16(s@),
{
    match parse_usize(s) {
        Some(n) => if n <= 65535 {
            Some(n as u16)
        } else {
            None
        },
        None => None,
    }
}

/// Whether the authentication settings of `cs` can be read.
pub open spec fn auth_strategy_readable(cs: Seq<ConfigSection>) -> bool {
    strategy_name(cs) == "auth_file"@ || setting(cs, strategy_name(cs), "pam_module_name"@) is Some
}

/// The `[server]` section: where to listen, with how many workers, how to
/// authenticate and how to log. The host is kept as written; that it is an
/// IP address is the caller's check.
#[derive(Debug, Clone)]
pub struct ServerConfiguration {
    host: String,
    port: u16,
    number_thread: u16,
    auth_strategy: AuthStrategy,
    log_format: String,
}

impl ServerConfiguration {
    /// The `host` setting of the `[server]` section, as written.
    pub fn host_setting(configs: &Vec<ConfigSection>) -> (r: Option<String>)
        ensures
            r is Some <==> setting(configs@, "server"@, "host"@) is Some,
            r is Some ==> r->Some_0@ == setting(configs@, "server"@, "host"@)->Some_0,
    {
        proof {
            reveal_strlit("server");
            reveal_strlit("host");
        }
        match find_setting(configs, "server", "host") {
            Some(h) => Some(h.clone()),
            None => None,
        }
    }

    pub fn section_name() -> (r: &'static str)
        ensures
            r@ == "server"@,
    {
        "server"
    }

    /// Reads the `[server]` section of `configs`: `host` and `port` are
    /// required, `workers` defaults to one, `log_format` to the common
    /// format; then the authentication strategy. `host_is_address` says
    /// whether the `host` setting parses as an IP address (`IpAddr`'s
    /// `from_str`, a part of std this library does not use); when it does
    /// not, the host is rejected.
    pub fn try_from(configs: &Vec<ConfigSection>, host_is_address: bool) -> (r: Result<
        ServerConfiguration,
        AppError,
    >)
        ensures
            r is Ok <==> Self::try_from_ok(configs@) && host_is_address,
            r is Err ==> r->Err_0 is InitError,
            r is Ok ==> {
                let c = r->Ok_0;
                &&& c.host_spec() == setting(configs@, "server"@, "host"@)->Some_0
                &&& Some(c.port_spec()) == parsed_u16(setting(configs@, "server"@, "port"@)->Some_0)
                &&& c.number_thread_spec() == match setting(configs@, "server"@, "workers"@) {
                    Some(w) => match parsed_u16(w) {
                        Some(n) => n,
                        None => DEFAULT_NUMBER_OF_THREADS,
                    },
                    None => DEFAULT_NUMBER_OF_THREADS,
                }
                &&& c.log_format_spec() == match setting(configs@, "server"@, "log_format"@) {
                    Some(f) => f,
                    None => COMMON_LOG_FORMAT@,
                }
                &&& strategy_read(configs@, c.auth_strategy_spec())
            },
    {
        proof {
            reveal_strlit("server");
            reveal_strlit("host");
            reveal_strlit("port");
            reveal_strlit("workers");
            reveal_strlit("log_format");
        }
        let name = Self::section_name();
        let section = match find_section(configs, name) {
            Some(section) => section,
            None => {
                return Err(
                    AppError::InitError(
                        String::from_str("Section [server] is missing from configuration file"),
                    ),
                );
            },
        };
        let host = match find_property(&section.properties, "host") {
            Some(h) => if host_is_address {
                h.clone()
            } else {
                return Err(
                    AppError::InitError(
                        String::from_str("Missing valid host address from [server] section"),
                    ),
                );
            },
            None => {
                return Err(
                    AppError::InitError(
                        String::from_str("Missing valid host address from [server] section"),
                    ),
                );
            },
        };
        let port = match find_property(&section.properties, "port") {
            Some(p) => match parse_u16(p.as_str()) {
                Some(n) => n,
                None => {
                    return Err(
                        AppError::InitError(
                            String::from_str("Missing valid port from [server] section"),
                        ),
                    );
                },
            },
            None => {
                return Err(
                    AppError::InitError(
                        String::from_str("Missing valid port from [server] section"),
                    ),
                );
            },
        };
        let number_thread = match find_property(&section.properties, "workers") {
            Some(w) => match parse_u16(w.as_str()) {
                Some(n) => n,
                None => DEFAULT_NUMBER_OF_THREADS,
            },
            None => DEFAULT_NUMBER_OF_THREADS,
        };
        let auth_strategy = match AuthStrategy::try_from(configs) {
            Ok(a) => a,
            Err(e) => {
                return Err(e);
            },
        };
        let log_format = match find_property(&section.properties, "log_format") {
            Some(f) => f.clone(),
            None => String::from_str(COMMON_LOG_FORMAT),
        };
        Ok(ServerConfiguration { host, port, number_thread, auth_strategy, log_format })
    }

    pub closed spec fn host_spec(&self) -> Seq<char> {
        self.host@
    }

    pub closed spec fn port_spec(&self) -> u16 {
        self.port
    }

    pub closed spec fn number_thread_spec(&self) -> u16 {
        self.number_thread
    }

    pub closed spec fn auth_strategy_spec(&self) -> AuthStrategy {
        self.auth_strategy
    }

    pub closed spec fn log_format_spec(&self) -> Seq<char> {
        self.log_format@
    }

    pub fn host(&self) -> (r: &String)
        ensures
            r@ == self.host_spec(),
    {
        &self.host
    }

    pub fn port(&self) -> (r: u16)
        ensures
            r == self.port_spec(),
    {
        self.port
    }

    pub fn number_thread(&self) -> (r: u16)
        ensures
            r == self.number_thread_spec(),
    {
        self.number_thread
    }

    pub fn auth_strategy(&self) -> (r: &AuthStrategy)
        ensures
            *r == self.auth_strategy_spec(),
    {
        &self.auth_strategy
    }

    pub fn log_format(&self) -> (r: &String)
        ensures
            r@ == self.log_format_spec(),
    {
        &self.log_format
    }
}

/// All settings of the application.
#[derive(Debug, Clone)]
pub struct ApplicationConfigurations {
    upload_configs: UploadConfiguration,
    ui_configs: UiConfiguration,
    server_configs: ServerConfiguration,
}

impl ApplicationConfigurations {
    /// Reads the server, upload and interface sections, in that order; the
    /// first that fails gives the error. `host_is_address` is as for
    /// `ServerConfiguration::try_from`.
    pub fn try_from(
        configs: &Vec<ConfigSection>,
        host_is_address: bool,
        default_directory: String,
    ) -> (r: Result<ApplicationConfigurations, AppError>)
        ensures
            r is Ok <==> (ServerConfiguration::try_from_ok(configs@) && host_is_address && section_spec(
                configs@,
                "upload"@,
            ) is Some && setting(configs@, "ui"@, "tera_templates"@) is Some),
    {
        let server_configs = match ServerConfiguration::try_from(configs, host_is_address) {
            Ok(c) => c,
            Err(e) => {
                return Err(e);
            },
        };
        let upload_configs = match UploadConfiguration::try_from(configs, default_directory) {
            Ok(c) => c,
            Err(e) => {
                return Err(e);
            },
        };
        let ui_configs = match UiConfiguration::try_from(configs) {
            Ok(c) => c,
            Err(e) => {
                return Err(e);
            },
        };
        Ok(ApplicationConfigurations { upload_configs, ui_configs, server_configs })
    }

    pub closed spec fn upload_spec(&self) -> UploadConfiguration {
        self.upload_configs
    }

    pub closed spec fn ui_spec(&self) -> UiConfiguration {
        self.ui_configs
    }

    pub closed spec fn server_spec(&self) -> ServerConfiguration {
        self.server_configs
    }

    pub fn upload_configs(&self) -> (r: &UploadConfiguration)
        ensures
            *r == self.upload_spec(),
    {
        &self.upload_configs
    }

    pub fn ui_configs(&self) -> (r: &UiConfiguration)
        ensures
            *r == self.ui_spec(),
    {
        &self.ui_configs
    }

    pub fn server_configs(&self) -> (r: &ServerConfiguration)
        ensures
            *r == self.server_spec(),
    {
        &self.server_configs
    }
}

impl ServerConfiguration {
    /// When `try_from` succeeds on `cs` with a host that is an address.
    pub open spec fn try_from_ok(cs: Seq<ConfigSection>) -> bool {
        &&& section_spec(cs, "server"@) is Some
        &&& setting(cs, "server"@, "host"@) is Some
        &&& setting(cs, "server"@, "port"@) matches Some(p) && parsed_u16(p) is Some
        &&& auth_strategy_readable(cs)
    }
}

} // verus!
