//! The Wi-Fi network payload (`WIFI:S:..;T:..;P:..;H:..;;`) that phones read
//! from a QR code.

use vstd::prelude::*;
use crate::error::WifiQrError;

verus! {

/// How the network is secured.
#[derive(Clone, Copy, Debug, PartialEq, Eq, Structural)]
pub enum Security {
    Wpa,
    Wep,
    NoPass,
}

impl Security {
    /// Whether the network needs a password: every kind but `NoPass`.
    pub open spec fn needs_password(self) -> bool {
        !(self is NoPass)
    }

    /// The value of the `T:` field.
    pub open spec fn qr_text(self) -> Seq<char> {
        match self {
            Security::Wpa => "WPA"@,
            Security::Wep => "WEP"@,
            Security::NoPass => "nopass"@,
        }
    }

    /// Whether the network needs a password.
    pub fn requires_password(self) -> (r: bool)
        ensures
            r == self.needs_password(),
    {
        !matches!(self, Security::NoPass)
    }

    /// The value of the `T:` field.
    pub fn qr_value(self) -> (r: &'static str)
        ensures
            r@ == self.qr_text(),
    {
        match self {
            Security::Wpa => "WPA",
            Security::Wep => "WEP",
            Security::NoPass => "nopass",
        }
    }
}

/// The characters that the payload format reserves and that a field must
/// escape with a backslash.
pub open spec fn is_reserved(c: char) -> bool {
    c == '\\' || c == ';' || c == ',' || c == ':' || c == '"'
}

/// What one character of a field becomes in the payload.
pub open spec fn escaped_char(c: char) -> Seq<char> {
    if is_reserved(c) {
        seq!['\\', c]
    } else {
        seq![c]
    }
}

/// A field with every reserved character preceded by a backslash.
pub open spec fn escaped(s: Seq<char>) -> Seq<char>
    decreases s.len(),
{
    if s.len() == 0 {
        seq![]
    } else {
        escaped(s.drop_last()) + escaped_char(s.last())
    }
}

/// The payload of a network, when it can be built: a protected network
/// needs a password, and a password is written only for a protected one.
pub open spec fn wifi_payload(
    ssid: Seq<char>,
    password: Option<Seq<char>>,
    security: Security,
    hidden: bool,
) -> Option<Seq<char>> {
    if security.needs_password() && password is None {
        None
    } else {
        let head = "WIFI:S:"@ + escaped(ssid) + ";T:"@ + security.qr_text() + ";"@;
        let with_password = if security.needs_password() {
            head + "P:"@ + escaped(password->0) + ";"@
        } else {
            head
        };
        let with_hidden = if hidden {
            with_password + "H:true;"@
        } else {
            with_password
        };
        Some(with_hidden + ";"@)
    }
}

/// The characters of an optional text.
pub open spec fn text_of(s: Option<&str>) -> Option<Seq<char>> {
    match s {
        Some(t) => Some(t@),
        None => None,
    }
}

/// Escapes the reserved characters of a payload field.
pub fn escape_wifi_field(value: &str) -> (r: String)
    ensures
        r@ == escaped(value@),
{
    let n = value.unicode_len();
    let mut escaped_text = String::new();
    let mut i: usize = 0;
    while i < n
        invariant
            i <= n,
            n == value@.len(),
            escaped_text@ == escaped(value@.subrange(0, i as int)),
        decreases n - i,
    {
        let ch = value.get_char(i);
        if ch == '\\' || ch == ';' || ch == ',' || ch == ':' || ch == '"' {
            escaped_text.push('\\');
        }
        escaped_text.push(ch);
        proof {
            let prefix = value@.subrange(0, i + 1);
            assert(prefix.drop_last() =~= value@.subrange(0, i as int));
            assert(prefix.last() == ch);
        }
        assert(escaped_text@ =~= escaped(value@.subrange(0, i + 1)));
        i = i + 1;
    }
    assert(value@.subrange(0, n as int) =~= value@);
    escaped_text
}

/// Builds the Wi-Fi payload of a network; a protected network without a
/// password is refused.
pub fn build_wifi_payload(
    ssid: &str,
    password: Option<&str>,
    security: Security,
    hidden: bool,
) -> (r: Result<String, WifiQrError>)
    ensures
        match wifi_payload(ssid@, text_of(password), security, hidden) {
            Some(payload) => r matches Ok(s) && s@ == payload,
            None => r matches Err(WifiQrError::MissingPassword),
        },
{
    let mut payload = "WIFI:S:".to_owned();
    payload.append(escape_wifi_field(ssid).as_str());
    payload.append(";T:");
    payload.append(security.qr_value());
    payload.append(";");

    if security.requires_password() {
        let password = match password {
            Some(p) => p,
            None => return Err(WifiQrError::MissingPassword),
        };
        payload.append("P:");
        payload.append(escape_wifi_field(password).as_str());
        payload.append(";");
    }

    if hidden {
        payload.append("H:true;");
    }

    payload.append(";");
    Ok(payload)
}

/// A field read back from the payload: a backslash takes the character
/// after it literally.
pub open spec fn unescaped(t: Seq<char>) -> Seq<char>
    decreases t.len(),
{
    if t.len() == 0 {
        seq![]
    } else if t[0] == '\\' && t.len() >= 2 {
        seq![t[1]] + unescaped(t.skip(2))
    } else {
        seq![t[0]] + unescaped(t.skip(1))
    }
}

/// Escaping a text is escaping its parts one after the other.
pub proof fn lemma_escaped_concat(a: Seq<char>, b: Seq<char>)
    ensures
        escaped(a + b) == escaped(a) + escaped(b),
    decreases b.len(),
{
    if b.len() == 0 {
        assert(a + b =~= a);
        assert(escaped(a) + escaped(b) =~= escaped(a));
    } else {
        lemma_escaped_concat(a, b.drop_last());
        assert((a + b).drop_last() =~= a + b.drop_last());
        assert((a + b).last() == b.last());
        assert(escaped(a + b) =~= escaped(a) + escaped(b));
    }
}

/// Exactly the five characters backslash, `;`, `,`, `:` and `"` are
/// escaped, each with one backslash before it; every other character is
/// written as it is.
pub proof fn lemma_escaped_character(c: char)
    ensures
        escaped(seq![c]) == (if c == '\\' || c == ';' || c == ',' || c == ':' || c == '"' {
            seq!['\\', c]
        } else {
            seq![c]
        }),
{
    assert(seq![c].drop_last() =~= Seq::<char>::empty());
    assert(escaped(Seq::<char>::empty()) == Seq::<char>::empty());
    assert(escaped(seq![c]) =~= escaped_char(c));
}

/// A field without reserved characters is written as it is.
pub proof fn lemma_plain_field_unchanged(s: Seq<char>)
    requires
        forall|i: int| 0 <= i < s.len() ==> !is_reserved(#[trigger] s[i]),
    ensures
        escaped(s) == s,
    decreases s.len(),
{
    if s.len() > 0 {
        lemma_plain_field_unchanged(s.drop_last());
        assert(escaped(s) =~= s);
    }
}

/// Reading an escaped field back gives the field: escaping loses nothing.
pub proof fn lemma_unescape_escaped(s: Seq<char>)
    ensures
        unescaped(escaped(s)) == s,
    decreases s.len(),
{
    if s.len() > 0 {
        let rest = s.skip(1);
        lemma_escaped_concat(seq![s[0]], rest);
        assert(seq![s[0]] + rest =~= s);
        assert(seq![s[0]].drop_last() =~= Seq::<char>::empty());
        assert(escaped(Seq::<char>::empty()) == Seq::<char>::empty());
        assert(seq![s[0]].last() == s[0]);
        assert(escaped(seq![s[0]]) =~= escaped_char(s[0]));
        lemma_unescape_escaped(rest);
        let t = escaped(s);
        if is_reserved(s[0]) {
            assert(t =~= seq!['\\', s[0]] + escaped(rest));
            assert(t.skip(2) =~= escaped(rest));
        } else {
            assert(t =~= seq![s[0]] + escaped(rest));
            assert(t.skip(1) =~= escaped(rest));
        }
        assert(unescaped(t) =~= s);
    }
}

/// An open network's payload does not depend on any password given.
pub proof fn lemma_open_network_ignores_password(
    ssid: Seq<char>,
    password1: Option<Seq<char>>,
    password2: Option<Seq<char>>,
    hidden: bool,
)
    ensures
        wifi_payload(ssid, password1, Security::NoPass, hidden) == wifi_payload(ssid, password2, Security::NoPass, hidden),
        wifi_payload(ssid, password1, Security::NoPass, hidden) is Some,
{
}

/// A protected network's payload is refused exactly when the password is
/// missing.
pub proof fn lemma_protected_network_needs_password(
    ssid: Seq<char>,
    password: Option<Seq<char>>,
    security: Security,
    hidden: bool,
)
    requires
        security != Security::NoPass,
    ensures
        wifi_payload(ssid, password, security, hidden) is None <==> password is None,
{
}

/// Marking a network hidden adds the field `H:true;` just before the final
/// `;` and changes nothing else, whatever the security: the hidden payload
/// is built exactly when the plain one is.
pub proof fn lemma_hidden_adds_field(
    ssid: Seq<char>,
    password: Option<Seq<char>>,
    security: Security,
)
    ensures
        wifi_payload(ssid, password, security, true) is Some <==> wifi_payload(ssid, password, security, false) is Some,
        wifi_payload(ssid, password, security, false) matches Some(plain) ==> {
            &&& plain.last() == ';'
            &&& wifi_payload(ssid, password, security, true) == Some(plain.drop_last() + "H:true;;"@)
        },
{
    reveal_strlit(";");
    reveal_strlit("H:true;");
    reveal_strlit("H:true;;");
    if let Some(plain) = wifi_payload(ssid, password, security, false) {
        let body = plain.drop_last();
        assert(plain =~= body + ";"@);
        assert(wifi_payload(ssid, password, security, true)->0 =~= body + "H:true;;"@);
    }
}

} // verus!
