//! Configuration: its shape, its defaults and its validation. Reading the
//! file and the environment is left to the caller, which hands the values in.

use vstd::prelude::*;

use crate::error::AzdoError;
use crate::text::{
    dec, has_prefix, is_blank, is_ws, lemma_text_lt_asymmetric, push_decimal, push_str, starts_with,
    text_lt, trim, trim_end, trim_start,
};

verus! {

/// The whole configuration file. Its tables are held as lists of
/// `(key, value)` in ascending key order, each key once, as the file
/// reader builds them (`table_ordered`).
#[derive(Debug)]
pub struct Config {
    pub server: String,
    pub collection: String,
    pub project: String,
    pub api_version: String,
    pub auth: AuthConfig,
    pub wiki: Option<WikiConfig>,
    /// `[states]`: alias => state name.
    pub states: Vec<(String, String)>,
    /// `[products.<name>]`.
    pub products: Vec<(String, ProductConfig)>,
    /// `[profiles.<role>]`.
    pub profiles: Vec<(String, ProfileConfig)>,
    pub workflows: Option<WorkflowsConfig>,
}

/// `[workflows]`: where named workflow scripts live.
#[derive(Debug)]
pub struct WorkflowsConfig {
    pub dir: String,
}

/// `[auth]`: where the personal access token is read from.
#[derive(Debug)]
pub struct AuthConfig {
    pub pat_env: String,
}

/// `[wiki]`: the wiki that holds the daily pages.
#[derive(Debug)]
pub struct WikiConfig {
    pub id: String,
    pub daily_path: String,
}

/// `[products.<name>]`.
#[derive(Debug)]
pub struct ProductConfig {
    pub build_definition_id: Option<u32>,
    pub test_state: Option<String>,
    pub test_comment_template: Option<String>,
}

/// `[profiles.<role>]`.
#[derive(Debug)]
pub struct ProfileConfig {
    pub users: Vec<String>,
}

/// The `api_version` used when the file names none.
pub fn default_api_version() -> (r: String)
    ensures
        r@ == "6.0"@,
{
    String::from_str("6.0")
}

/// The environment variable read for the token when the file names none.
pub fn default_pat_env() -> (r: String)
    ensures
        r@ == "AZDO_PAT"@,
{
    String::from_str("AZDO_PAT")
}

impl Default for AuthConfig {
    fn default() -> (r: Self)
        ensures
            r.pat_env@ == "AZDO_PAT"@,
    {
        AuthConfig { pat_env: default_pat_env() }
    }
}

/// A personal access token. Its `Debug`-style rendering shows only its
/// length, never its content.
pub struct Pat {
    value: String,
}

/// The length of `s` in UTF-8 bytes, as `str::len` reports it.
pub open spec fn utf8_len(s: Seq<char>) -> nat {
    (vstd::utf8::encode_utf8(s).len() as usize) as nat
}

/// How a token with the characters `s` is shown: its length in UTF-8 bytes
/// and nothing else.
pub open spec fn pat_debug_text(s: Seq<char>) -> Seq<char> {
    "Pat(***redacted, len="@ + dec(utf8_len(s)) + ")"@
}

impl Pat {
    /// The characters of the token.
    pub closed spec fn secret(&self) -> Seq<char> {
        self.value@
    }

    /// Wraps a token.
    pub fn new(value: String) -> (r: Pat)
        ensures
            r.secret() == value@,
    {
        Pat { value }
    }

    /// The token itself, for building the authorization header.
    pub fn as_str(&self) -> (r: &str)
        ensures
            r@ == self.secret(),
    {
        self.value.as_str()
    }

    /// The redacted rendering, as `Debug` writes it.
    pub fn debug_text(&self) -> (r: String)
        ensures
            r@ == pat_debug_text(self.secret()),
    {
        let mut out = String::new();
        push_str(&mut out, "Pat(***redacted, len=");
        let n = self.value.as_str().len();
        push_decimal(&mut out, n as u64);
        push_str(&mut out, ")");
        out
    }
}

/// The redacted rendering of a token depends only on its length.
pub proof fn law_pat_debug_depends_only_on_length(a: Seq<char>, b: Seq<char>)
    requires
        utf8_len(a) == utf8_len(b),
    ensures
        pat_debug_text(a) == pat_debug_text(b),
{
}

/// The first problem `validate` reports for a configuration, if any.
pub open spec fn config_problem(c: Config) -> Option<Seq<char>> {
    if trim(c.server@).len() == 0 {
        Some("`server` is empty"@)
    } else if trim(c.collection@).len() == 0 {
        Some("`collection` is empty"@)
    } else if trim(c.project@).len() == 0 {
        Some("`project` is empty"@)
    } else if !has_prefix(c.server@, "http://"@) && !has_prefix(c.server@, "https://"@) {
        Some("`server` must start with http:// or https:// (got: "@ + c.server@ + ")"@)
    } else if trim(c.auth.pat_env@).len() == 0 {
        Some("`auth.pat_env` is empty"@)
    } else {
        None
    }
}

impl Config {
    /// Checks the required fields and the server's scheme.
    pub fn validate(&self) -> (r: Result<(), AzdoError>)
        ensures
            r is Ok <==> config_problem(*self) is None,
            r matches Err(e) ==> e matches AzdoError::Config(m) && config_problem(*self) == Some(
                m@,
            ),
    {
        if is_blank(self.server.as_str()) {
            return Err(AzdoError::Config(String::from_str("`server` is empty")));
        }
        if is_blank(self.collection.as_str()) {
            return Err(AzdoError::Config(String::from_str("`collection` is empty")));
        }
        if is_blank(self.project.as_str()) {
            return Err(AzdoError::Config(String::from_str("`project` is empty")));
        }
        if !starts_with(self.server.as_str(), "http://") && !starts_with(
            self.server.as_str(),
            "https://",
        ) {
            let mut m = String::from_str("`server` must start with http:// or https:// (got: ");
            push_str(&mut m, self.server.as_str());
            push_str(&mut m, ")");
            return Err(AzdoError::Config(m));
        }
        if is_blank(self.auth.pat_env.as_str()) {
            return Err(AzdoError::Config(String::from_str("`auth.pat_env` is empty")));
        }
        Ok(())
    }

    /// The token, from the value of the configured environment variable
    /// (`None` when the variable is unset or not Unicode).
    pub fn pat_from_env(&self, value: Option<String>) -> (r: Result<Pat, AzdoError>)
        ensures
            r is Ok <==> (value matches Some(v) && v@.len() > 0),
            r matches Ok(p) ==> value matches Some(v) && p.secret() == v@,
            r matches Err(e) ==> e matches AzdoError::PatMissing(n) && n@ == self.auth.pat_env@,
    {
        match value {
            Some(v) => if v.as_str().is_empty() {
                Err(AzdoError::PatMissing(self.auth.pat_env.clone()))
            } else {
                Ok(Pat::new(v))
            },
            None => Err(AzdoError::PatMissing(self.auth.pat_env.clone())),
        }
    }

    /// Per-invocation overrides of the server, collection and project.
    pub fn apply_overrides(
        &mut self,
        server: Option<String>,
        collection: Option<String>,
        project: Option<String>,
    )
        ensures
            final(self).server@ == (match server {
                Some(s) => s@,
                None => old(self).server@,
            }),
            final(self).collection@ == (match collection {
                Some(s) => s@,
                None => old(self).collection@,
            }),
            final(self).project@ == (match project {
                Some(s) => s@,
                None => old(self).project@,
            }),
            final(self).api_version == old(self).api_version,
            final(self).auth == old(self).auth,
            final(self).wiki == old(self).wiki,
            final(self).states == old(self).states,
            final(self).products == old(self).products,
            final(self).profiles == old(self).profiles,
            final(self).workflows == old(self).workflows,
    {
        if let Some(s) = server {
            self.server = s;
        }
        if let Some(c) = collection {
            self.collection = c;
        }
        if let Some(p) = project {
            self.project = p;
        }
    }
}

/// Text that starts with a character other than whitespace is not blank.
proof fn lemma_not_blank(s: Seq<char>)
    requires
        s.len() > 0,
        !is_ws(s[0]),
    ensures
        trim(s).len() > 0,
    decreases s.len(),
{
    lemma_trim_end_keeps_head(s);
    let t = trim_end(s);
    assert(trim_start(t) == t);
}

proof fn lemma_trim_end_keeps_head(s: Seq<char>)
    requires
        s.len() > 0,
        !is_ws(s[0]),
    ensures
        trim_end(s).len() > 0,
        trim_end(s)[0] == s[0],
    decreases s.len(),
{
    if is_ws(s.last()) {
        assert(s.len() > 1) by {
            if s.len() == 1 {
                assert(s.last() == s[0]);
            }
        }
        lemma_trim_end_keeps_head(s.drop_last());
    }
}

/// With the other required fields present, a configuration is accepted
/// exactly when the server names an `http` or `https` URL.
pub proof fn law_validate_accepts_iff_http_scheme(c: Config)
    requires
        trim(c.collection@).len() > 0,
        trim(c.project@).len() > 0,
        trim(c.auth.pat_env@).len() > 0,
    ensures
        config_problem(c) is None <==> (has_prefix(c.server@, "http://"@) || has_prefix(
            c.server@,
            "https://"@,
        )),
{
    if has_prefix(c.server@, "http://"@) || has_prefix(c.server@, "https://"@) {
        reveal_strlit("http://");
        reveal_strlit("https://");
        if has_prefix(c.server@, "http://"@) {
            assert(c.server@[0] == c.server@.subrange(0, 7)[0]);
        } else {
            assert(c.server@[0] == c.server@.subrange(0, 8)[0]);
        }
        assert(c.server@[0] == 'h');
        lemma_not_blank(c.server@);
    }
}


/// A table as the file reader builds it: keys in strictly ascending order
/// (the order of `str`), so that no key occurs twice.
pub open spec fn table_ordered<V>(t: Seq<(String, V)>) -> bool {
    forall|i: int, j: int| 0 <= i < j < t.len() ==> text_lt(#[trigger] t[i].0@, #[trigger] t[j].0@)
}

/// In an ordered table, the entries before one with key `name` have other
/// keys.
proof fn lemma_ordered_earlier_keys_differ<V>(t: Seq<(String, V)>, k: int, name: Seq<char>)
    requires
        table_ordered(t),
        0 <= k < t.len(),
        t[k].0@ == name,
    ensures
        forall|j: int| 0 <= j < k ==> (#[trigger] t[j]).0@ != name,
{
    assert forall|j: int| 0 <= j < k implies (#[trigger] t[j]).0@ != name by {
        assert(text_lt(t[j].0@, t[k].0@));
        lemma_text_lt_asymmetric(t[j].0@, t[k].0@);
    }
}

/// The state a name stands for: the target of the first `[states]` alias
/// equal to it, else the name itself.
pub open spec fn state_for(states: Seq<(String, String)>, name: Seq<char>) -> Seq<char>
    decreases states.len(),
{
    if states.len() == 0 {
        name
    } else if states[0].0@ == name {
        states[0].1@
    } else {
        state_for(states.drop_first(), name)
    }
}

/// The build definition of the first `[products]` entry named `name`, if
/// it has one.
pub open spec fn definition_for(products: Seq<(String, ProductConfig)>, name: Seq<char>) -> Option<u32>
    decreases products.len(),
{
    if products.len() == 0 {
        None
    } else if products[0].0@ == name {
        products[0].1.build_definition_id
    } else {
        definition_for(products.drop_first(), name)
    }
}

/// `state_for` takes the first entry with the name's key.
proof fn lemma_state_for_first(states: Seq<(String, String)>, name: Seq<char>, k: int)
    requires
        0 <= k < states.len(),
        states[k].0@ == name,
        forall|j: int| 0 <= j < k ==> (#[trigger] states[j]).0@ != name,
    ensures
        state_for(states, name) == states[k].1@,
    decreases k,
{
    if k > 0 {
        assert(states[0].0@ != name);
        assert forall|j: int| 0 <= j < k - 1 implies (#[trigger] states.drop_first()[j]).0@ != name by {
            assert(states.drop_first()[j] == states[j + 1]);
        }
        lemma_state_for_first(states.drop_first(), name, k - 1);
    }
}

/// A name that no alias has stands for itself.
proof fn lemma_state_for_absent(states: Seq<(String, String)>, name: Seq<char>)
    requires
        forall|j: int| 0 <= j < states.len() ==> (#[trigger] states[j]).0@ != name,
    ensures
        state_for(states, name) == name,
    decreases states.len(),
{
    if states.len() > 0 {
        assert(states[0].0@ != name);
        assert forall|j: int| 0 <= j < states.len() - 1 implies (#[trigger] states.drop_first()[j]).0@ != name by {
            assert(states.drop_first()[j] == states[j + 1]);
        }
        lemma_state_for_absent(states.drop_first(), name);
    }
}

/// `definition_for` takes the first entry with the name's key.
proof fn lemma_definition_for_first(products: Seq<(String, ProductConfig)>, name: Seq<char>, k: int)
    requires
        0 <= k < products.len(),
        products[k].0@ == name,
        forall|j: int| 0 <= j < k ==> (#[trigger] products[j]).0@ != name,
    ensures
        definition_for(products, name) == products[k].1.build_definition_id,
    decreases k,
{
    if k > 0 {
        assert(products[0].0@ != name);
        assert forall|j: int| 0 <= j < k - 1 implies (#[trigger] products.drop_first()[j]).0@ != name by {
            assert(products.drop_first()[j] == products[j + 1]);
        }
        lemma_definition_for_first(products.drop_first(), name, k - 1);
    }
}

/// A product that has no entry has no build definition.
proof fn lemma_definition_for_absent(products: Seq<(String, ProductConfig)>, name: Seq<char>)
    requires
        forall|j: int| 0 <= j < products.len() ==> (#[trigger] products[j]).0@ != name,
    ensures
        definition_for(products, name) is None,
    decreases products.len(),
{
    if products.len() > 0 {
        assert(products[0].0@ != name);
        assert forall|j: int| 0 <= j < products.len() - 1 implies (#[trigger] products.drop_first()[j]).0@ != name by {
            assert(products.drop_first()[j] == products[j + 1]);
        }
        lemma_definition_for_absent(products.drop_first(), name);
    }
}

/// What `state_for` gives in an ordered table, and for a name that no
/// entry has.
proof fn lemma_state_lookup(states: Seq<(String, String)>, name: Seq<char>)
    ensures
        table_ordered(states) ==> forall|k: int|
            0 <= k < states.len() && (#[trigger] states[k]).0@ == name ==> state_for(states, name)
                == states[k].1@,
        (forall|k: int| 0 <= k < states.len() ==> (#[trigger] states[k]).0@ != name) ==> state_for(
            states,
            name,
        ) == name,
{
    if table_ordered(states) {
        assert forall|k: int| 0 <= k < states.len() && (#[trigger] states[k]).0@ == name implies state_for(
            states,
            name,
        ) == states[k].1@ by {
            lemma_ordered_earlier_keys_differ(states, k, name);
            lemma_state_for_first(states, name, k);
        }
    }
    if forall|k: int| 0 <= k < states.len() ==> (#[trigger] states[k]).0@ != name {
        lemma_state_for_absent(states, name);
    }
}

/// What `definition_for` gives in an ordered table, and for a product that
/// no entry names.
proof fn lemma_definition_lookup(products: Seq<(String, ProductConfig)>, name: Seq<char>)
    ensures
        table_ordered(products) ==> forall|k: int|
            0 <= k < products.len() && (#[trigger] products[k]).0@ == name ==> definition_for(
                products,
                name,
            ) == products[k].1.build_definition_id,
        (forall|k: int| 0 <= k < products.len() ==> (#[trigger] products[k]).0@ != name)
            ==> definition_for(products, name) is None,
{
    if table_ordered(products) {
        assert forall|k: int|
            0 <= k < products.len() && (#[trigger] products[k]).0@ == name implies definition_for(
            products,
            name,
        ) == products[k].1.build_definition_id by {
            lemma_ordered_earlier_keys_differ(products, k, name);
            lemma_definition_for_first(products, name, k);
        }
    }
    if forall|k: int| 0 <= k < products.len() ==> (#[trigger] products[k]).0@ != name {
        lemma_definition_for_absent(products, name);
    }
}

impl Config {
    /// The state to set for `name`: its `[states]` alias target, or the
    /// name itself when it is no alias. In an ordered table (each key once)
    /// that target is the one of the entry with key `name`; otherwise the
    /// first such entry is taken.
    pub fn resolve_state(&self, name: &str) -> (r: String)
        ensures
            r@ == state_for(self.states@, name@),
            table_ordered(self.states@) ==> forall|k: int|
                0 <= k < self.states@.len() && (#[trigger] self.states@[k]).0@ == name@ ==> r@
                    == self.states@[k].1@,
            (forall|k: int| 0 <= k < self.states@.len() ==> (#[trigger] self.states@[k]).0@ != name@)
                ==> r@ == name@,
    {
        proof {
            lemma_state_lookup(self.states@, name@);
        }
        let wanted = String::from_str(name);
        let mut i: usize = 0;
        assert(self.states@.subrange(0, self.states@.len() as int) =~= self.states@);
        while i < self.states.len()
            invariant
                i <= self.states@.len(),
                wanted@ == name@,
                state_for(self.states@, name@) == state_for(self.states@.subrange(i as int, self.states@.len() as int), name@),
            decreases self.states.len() - i,
        {
            let ghost rest = self.states@.subrange(i as int, self.states@.len() as int);
            assert(rest[0] == self.states@[i as int]);
            if self.states[i].0.eq(&wanted) {
                proof {
                    lemma_state_lookup(self.states@, name@);
                }
                return self.states[i].1.clone();
            }
            assert(rest.drop_first() =~= self.states@.subrange(i + 1, self.states@.len() as int));
            i = i + 1;
        }
        wanted
    }

    /// The build definition of product `name`, or the configuration error
    /// naming it. In an ordered table (each key once) it is the one of the
    /// entry named `name`; otherwise the first such entry is taken.
    pub fn product_definition(&self, name: &str) -> (r: Result<u32, AzdoError>)
        ensures
            match definition_for(self.products@, name@) {
                Some(id) => r == Ok::<u32, AzdoError>(id),
                None => r matches Err(e) && e matches AzdoError::Config(m) && m@
                    == "no build_definition_id for product `"@ + name@ + "`"@,
            },
            table_ordered(self.products@) ==> forall|k: int|
                0 <= k < self.products@.len() && (#[trigger] self.products@[k]).0@ == name@
                    ==> definition_for(self.products@, name@) == self.products@[k].1.build_definition_id,
            (forall|k: int| 0 <= k < self.products@.len() ==> (#[trigger] self.products@[k]).0@ != name@)
                ==> definition_for(self.products@, name@) is None,
    {
        proof {
            lemma_definition_lookup(self.products@, name@);
        }
        let wanted = String::from_str(name);
        let mut i: usize = 0;
        assert(self.products@.subrange(0, self.products@.len() as int) =~= self.products@);
        while i < self.products.len()
            invariant
                i <= self.products@.len(),
                wanted@ == name@,
                definition_for(self.products@, name@) == definition_for(
                    self.products@.subrange(i as int, self.products@.len() as int),
                    name@,
                ),
            decreases self.products.len() - i,
        {
            let ghost rest = self.products@.subrange(i as int, self.products@.len() as int);
            assert(rest[0] == self.products@[i as int]);
            if self.products[i].0.eq(&wanted) {
                proof {
                    lemma_definition_lookup(self.products@, name@);
                }
                return match self.products[i].1.build_definition_id {
                    Some(id) => Ok(id),
                    None => Err(missing_definition(name)),
                };
            }
            assert(rest.drop_first() =~= self.products@.subrange(i + 1, self.products@.len() as int));
            i = i + 1;
        }
        Err(missing_definition(name))
    }
}

/// The error for a product without a build definition.
fn missing_definition(name: &str) -> (r: AzdoError)
    ensures
        r matches AzdoError::Config(m) && m@ == "no build_definition_id for product `"@ + name@ + "`"@,
{
    let mut m = String::from_str("no build_definition_id for product `");
    push_str(&mut m, name);
    push_str(&mut m, "`");
    AzdoError::Config(m)
}

} // verus!
