//! GitHub CLI accounts, read from `gh auth status --json hosts`.
use crate::binding::ErrorView;
use crate::error::{ErrorKind, GitPersonaError};
use crate::profiles::{lemma_lt_total, lemma_lt_transitive, seq_lt, str_lt};
use crate::config::opt_view;
use crate::process::ProcessOutput;
use crate::text::{cat, cat3, cat4, eq_ignore_ascii_case, eq_ignore_case, str_eq, trim, trim_str};
use vstd::prelude::*;

verus! {

/// A JSON document.
#[derive(Debug)]
pub enum JsonValue {
    Null,
    Bool(bool),
    Number(String),
    Str(String),
    Array(Vec<JsonValue>),
    Object(Vec<(String, JsonValue)>),
}

/// An account GitHub CLI knows for a host.
#[derive(Debug, PartialEq, Eq)]
pub struct Account {
    pub login: String,
    pub active: bool,
    pub valid: bool,
}

pub ghost struct AccountView {
    pub login: Seq<char>,
    pub active: bool,
    pub valid: bool,
}

impl View for Account {
    type V = AccountView;

    open spec fn view(&self) -> AccountView {
        AccountView { login: self.login@, active: self.active, valid: self.valid }
    }
}

impl Clone for Account {
    fn clone(&self) -> (r: Self)
        ensures
            r@ == self@,
    {
        Account { login: self.login.clone(), active: self.active, valid: self.valid }
    }
}

pub open spec fn accounts_view(v: Vec<Account>) -> Seq<AccountView> {
    v@.map_values(|a: Account| a@)
}

/// The first value under `key` in an object's fields.
pub open spec fn field(entries: Seq<(String, JsonValue)>, key: Seq<char>) -> Option<JsonValue>
    decreases entries.len(),
{
    if entries.len() == 0 {
        None
    } else if entries[0].0@ == key {
        Some(entries[0].1)
    } else {
        field(entries.drop_first(), key)
    }
}

/// The account an object describes: it has a string `login`; it is active
/// when `active` is `true`; it is valid unless it has a string `state`
/// other than `success` (compared ignoring ASCII case).
pub open spec fn own_account(entries: Seq<(String, JsonValue)>) -> Option<AccountView> {
    match field(entries, "login"@) {
        Some(JsonValue::Str(login)) => Some(
            AccountView {
                login: login@,
                active: match field(entries, "active"@) {
                    Some(JsonValue::Bool(b)) => b,
                    _ => false,
                },
                valid: match field(entries, "state"@) {
                    Some(JsonValue::Str(s)) => eq_ignore_case(s@, "success"@),
                    _ => true,
                },
            },
        ),
        _ => None,
    }
}

/// Every account described anywhere in a document, depth first.
pub open spec fn json_accounts(v: JsonValue) -> Seq<AccountView>
    decreases v,
{
    match v {
        JsonValue::Object(entries) => {
            let own: Seq<AccountView> = match own_account(entries@) {
                Some(a) => seq![a],
                None => Seq::empty(),
            };
            own + fields_accounts(entries@)
        },
        JsonValue::Array(items) => items_accounts(items@),
        _ => Seq::empty(),
    }
}

pub open spec fn fields_accounts(entries: Seq<(String, JsonValue)>) -> Seq<AccountView>
    decreases entries,
{
    if entries.len() == 0 {
        Seq::empty()
    } else {
        fields_accounts(entries.drop_last()) + json_accounts(entries.last().1)
    }
}

pub open spec fn items_accounts(items: Seq<JsonValue>) -> Seq<AccountView>
    decreases items,
{
    if items.len() == 0 {
        Seq::empty()
    } else {
        items_accounts(items.drop_last()) + json_accounts(items.last())
    }
}


fn get_field<'a>(entries: &'a Vec<(String, JsonValue)>, key: &str) -> (r: Option<&'a JsonValue>)
    ensures
        match r {
            Some(x) => field(entries@, key@) == Some(*x),
            None => field(entries@, key@) is None,
        },
{
    let mut i: usize = 0;
    assert(entries@.subrange(0, entries.len() as int) =~= entries@);
    while i < entries.len()
        invariant
            i <= entries.len(),
            field(entries@, key@) == field(entries@.subrange(i as int, entries.len() as int), key@),
        decreases entries.len() - i,
    {
        let ghost t = entries@.subrange(i as int, entries.len() as int);
        if str_eq(entries[i].0.as_str(), key) {
            assert(t[0] == entries@[i as int]);
            return Some(&entries[i].1);
        }
        assert(t.drop_first() =~= entries@.subrange(i + 1, entries.len() as int));
        i = i + 1;
    }
    None
}

fn own_account_exec(entries: &Vec<(String, JsonValue)>) -> (r: Option<Account>)
    ensures
        match r {
            Some(a) => own_account(entries@) == Some(a@),
            None => own_account(entries@) is None,
        },
{
    match get_field(entries, "login") {
        Some(JsonValue::Str(login)) => {
            let active = match get_field(entries, "active") {
                Some(JsonValue::Bool(b)) => *b,
                _ => false,
            };
            let valid = match get_field(entries, "state") {
                Some(JsonValue::Str(state)) => eq_ignore_ascii_case(state.as_str(), "success"),
                _ => true,
            };
            Some(Account { login: login.clone(), active, valid })
        },
        _ => None,
    }
}

fn push_account(output: &mut Vec<Account>, a: Account)
    ensures
        accounts_view(*final(output)) == accounts_view(*old(output)).push(a@),
{
    let ghost before = accounts_view(*output);
    output.push(a);
    assert(accounts_view(*output) =~= before.push(a@));
}

/// Appends every account described anywhere in `value`, depth first.
pub fn collect_accounts(value: &JsonValue, output: &mut Vec<Account>)
    ensures
        accounts_view(*final(output)) == accounts_view(*old(output)) + json_accounts(*value),
    decreases value,
{
    let ghost start = accounts_view(*output);
    match value {
        JsonValue::Object(entries) => {
            match own_account_exec(entries) {
                Some(a) => push_account(output, a),
                None => {},
            }
            let ghost base = accounts_view(*output);
            let mut i: usize = 0;
            assert(entries@.subrange(0, 0) =~= Seq::<(String, JsonValue)>::empty());
            assert(base =~= base + fields_accounts(entries@.subrange(0, 0)));
            while i < entries.len()
                invariant
                    i <= entries.len(),
                    *value == JsonValue::Object(*entries),
                    accounts_view(*output) == base + fields_accounts(entries@.subrange(0, i as int)),
                decreases entries.len() - i,
            {
                let ghost t = entries@.subrange(0, i + 1);
                assert(t.drop_last() =~= entries@.subrange(0, i as int));
                assert(t.last() == entries@[i as int]);
                assert(decreases_to!(*value => value->Object_0));
                assert(decreases_to!(value->Object_0 => value->Object_0@));
                assert(decreases_to!(entries@ => entries@[i as int]));
                assert(decreases_to!(entries@[i as int] => entries@[i as int].1));
                collect_accounts(&entries[i].1, output);
                assert(accounts_view(*output) =~= base + fields_accounts(t));
                i = i + 1;
            }
            assert(entries@.subrange(0, entries.len() as int) =~= entries@);
            assert(accounts_view(*output) =~= start + json_accounts(*value));
        },
        JsonValue::Array(items) => {
            let mut i: usize = 0;
            assert(items@.subrange(0, 0) =~= Seq::<JsonValue>::empty());
            assert(start =~= start + items_accounts(items@.subrange(0, 0)));
            while i < items.len()
                invariant
                    i <= items.len(),
                    *value == JsonValue::Array(*items),
                    accounts_view(*output) == start + items_accounts(items@.subrange(0, i as int)),
                decreases items.len() - i,
            {
                let ghost t = items@.subrange(0, i + 1);
                assert(t.drop_last() =~= items@.subrange(0, i as int));
                assert(t.last() == items@[i as int]);
                assert(decreases_to!(*value => value->Array_0));
                assert(decreases_to!(value->Array_0 => value->Array_0@));
                assert(decreases_to!(items@ => items@[i as int]));
                collect_accounts(&items[i], output);
                assert(accounts_view(*output) =~= start + items_accounts(t));
                i = i + 1;
            }
            assert(items@.subrange(0, items.len() as int) =~= items@);
        },
        _ => {
            assert(accounts_view(*output) =~= start + json_accounts(*value));
        },
    }
}


/// The order of accounts: by login, then inactive before active, then
/// invalid before valid.
pub open spec fn account_lt(a: AccountView, b: AccountView) -> bool {
    ||| seq_lt(a.login, b.login)
    ||| (a.login == b.login && !a.active && b.active)
    ||| (a.login == b.login && a.active == b.active && !a.valid && b.valid)
}

/// Each account comes before every later one: sorted, nothing twice.
pub open spec fn accounts_sorted(s: Seq<AccountView>) -> bool {
    forall|i: int, j: int| 0 <= i < j < s.len() ==> account_lt(s[i], s[j])
}

/// The two lists hold the same accounts.
pub open spec fn same_accounts(s: Seq<AccountView>, t: Seq<AccountView>) -> bool {
    forall|x: AccountView| s.contains(x) <==> t.contains(x)
}

pub proof fn lemma_account_lt_transitive(a: AccountView, b: AccountView, c: AccountView)
    requires
        account_lt(a, b),
        account_lt(b, c),
    ensures
        account_lt(a, c),
{
    if seq_lt(a.login, b.login) && seq_lt(b.login, c.login) {
        lemma_lt_transitive(a.login, b.login, c.login);
    }
}

pub proof fn lemma_account_lt_total(a: AccountView, b: AccountView)
    requires
        a != b,
    ensures
        account_lt(a, b) || account_lt(b, a),
{
    if a.login != b.login {
        lemma_lt_total(a.login, b.login);
    }
}

fn account_less(a: &Account, b: &Account) -> (r: bool)
    ensures
        r == account_lt(a@, b@),
{
    if str_lt(a.login.as_str(), b.login.as_str()) {
        return true;
    }
    if !str_eq(a.login.as_str(), b.login.as_str()) {
        return false;
    }
    (!a.active && b.active) || (a.active == b.active && !a.valid && b.valid)
}

fn same_account(a: &Account, b: &Account) -> (r: bool)
    ensures
        r == (a@ == b@),
{
    str_eq(a.login.as_str(), b.login.as_str()) && a.active == b.active && a.valid == b.valid
}

/// Puts `a` in its place in a sorted list, unless it is there already.
fn insert_account(out: &mut Vec<Account>, a: Account)
    requires
        accounts_sorted(accounts_view(*old(out))),
    ensures
        accounts_sorted(accounts_view(*final(out))),
        forall|x: AccountView|
            accounts_view(*final(out)).contains(x) <==> (accounts_view(*old(out)).contains(x) || x
                == a@),
{
    let ghost s = accounts_view(*out);
    let mut i: usize = 0;
    while i < out.len() && account_less(&out[i], &a)
        invariant
            i <= out.len(),
            accounts_view(*out) == s,
            forall|j: int| 0 <= j < i ==> account_lt(#[trigger] s[j], a@),
        decreases out.len() - i,
    {
        i = i + 1;
    }
    if i < out.len() && same_account(&out[i], &a) {
        assert forall|x: AccountView| s.contains(x) <==> (s.contains(x) || x == a@) by {
            if x == a@ {
                assert(s[i as int] == x);
            }
        }
        return;
    }
    let ghost av = a@;
    out.insert(i, a);
    let ghost n = accounts_view(*out);
    assert(n =~= s.insert(i as int, av));
    assert forall|p: int, q: int| 0 <= p < q < n.len() implies account_lt(n[p], n[q]) by {
        if q < i {
        } else if q == i {
            assert(n[p] == s[p]);
        } else if p == i {
            assert(n[q] == s[q - 1]);
            if q - 1 > i {
                assert(account_lt(s[i as int], s[q - 1]));
            }
            assert(s[i as int] != av);
            assert(!account_lt(s[i as int], av));
            lemma_account_lt_total(s[i as int], av);
            if q - 1 > i {
                lemma_account_lt_transitive(av, s[i as int], s[q - 1]);
            }
        } else if p < i {
            assert(n[p] == s[p]);
            assert(n[q] == s[q - 1]);
        } else {
            assert(n[p] == s[p - 1]);
            assert(n[q] == s[q - 1]);
        }
    }
    assert forall|x: AccountView| n.contains(x) <==> (s.contains(x) || x == av) by {
        if n.contains(x) {
            let k = choose|k: int| 0 <= k < n.len() && n[k] == x;
            if k < i {
                assert(s[k] == x);
            } else if k > i {
                assert(s[k - 1] == x);
            }
        }
        if s.contains(x) {
            let k = choose|k: int| 0 <= k < s.len() && s[k] == x;
            if k < i {
                assert(n[k] == x);
            } else {
                assert(n[k + 1] == x);
            }
        }
        if x == av {
            assert(n[i as int] == x);
        }
    }
}

/// The accounts of a list, sorted, each once.
pub fn sort_accounts(list: Vec<Account>) -> (r: Vec<Account>)
    ensures
        accounts_sorted(accounts_view(r)),
        same_accounts(accounts_view(r), accounts_view(list)),
{
    let mut out: Vec<Account> = Vec::new();
    let mut i: usize = 0;
    let ghost l = accounts_view(list);
    while i < list.len()
        invariant
            i <= list.len(),
            l == accounts_view(list),
            accounts_sorted(accounts_view(out)),
            forall|x: AccountView|
                accounts_view(out).contains(x) <==> l.subrange(0, i as int).contains(x),
        decreases list.len() - i,
    {
        let a = list[i].clone();
        let ghost before = accounts_view(out);
        insert_account(&mut out, a);
        assert forall|x: AccountView|
            accounts_view(out).contains(x) <==> l.subrange(0, i + 1).contains(x) by {
            let t = l.subrange(0, i + 1);
            if t.contains(x) {
                let k = choose|k: int| 0 <= k < t.len() && t[k] == x;
                if k < i {
                    assert(l.subrange(0, i as int)[k] == x);
                }
            }
            if l.subrange(0, i as int).contains(x) {
                let k = choose|k: int| 0 <= k < i && l.subrange(0, i as int)[k] == x;
                assert(t[k] == x);
            }
            if x == l[i as int] {
                assert(t[i as int] == x);
            }
        }
        i = i + 1;
    }
    assert(l.subrange(0, list.len() as int) =~= l);
    out
}

/// The arguments of `gh` that list the accounts of a host as JSON.
pub fn status_args(hostname: &str) -> (r: Vec<String>)
    ensures
        r@.map_values(|a: String| a@) == seq!["auth"@, "status"@, "--hostname"@, hostname@, "--json"@, "hosts"@],
{
    let mut r: Vec<String> = Vec::new();
    r.push("auth".to_string());
    r.push("status".to_string());
    r.push("--hostname".to_string());
    r.push(hostname.to_string());
    r.push("--json".to_string());
    r.push("hosts".to_string());
    assert(r@.map_values(|a: String| a@) =~= seq!["auth"@, "status"@, "--hostname"@, hostname@, "--json"@, "hosts"@]);
    r
}

/// A JSON document as `serde_json` reads it.
#[verifier::external_type_specification]
#[verifier::external_body]
pub struct ExternalJsonDocument(serde_json::Value);

/// What `serde_json::from_str` makes of a text, read as the library's
/// `JsonValue`, or the text of its error.
pub uninterp spec fn json_parse_result(text: Seq<char>) -> Result<JsonValue, Seq<char>>;

pub open spec fn json_result_view(r: Result<JsonValue, String>) -> Result<JsonValue, Seq<char>> {
    match r {
        Ok(v) => Ok(v),
        Err(e) => Err(e@),
    }
}

/// `serde_json`'s document in the library's form, variant for variant.
#[verifier::external_body]
fn json_from_document(value: &serde_json::Value) -> JsonValue {
    match value {
        serde_json::Value::Null => JsonValue::Null,
        serde_json::Value::Bool(b) => JsonValue::Bool(*b),
        serde_json::Value::Number(n) => JsonValue::Number(n.to_string()),
        serde_json::Value::String(s) => JsonValue::Str(s.clone()),
        serde_json::Value::Array(items) => JsonValue::Array(items.iter().map(json_from_document).collect()),
        serde_json::Value::Object(map) => JsonValue::Object(
            map.iter().map(|(key, item)| (key.clone(), json_from_document(item))).collect(),
        ),
    }
}

/// `serde_json::from_str::<serde_json::Value>`: reading a text as JSON
/// depends on the text alone, so its result (or its error's text) is named,
/// not stated.
#[verifier::external_body]
fn parse_json(text: &str) -> (r: Result<JsonValue, String>)
    ensures
        json_result_view(r) == json_parse_result(text@),
{
    match serde_json::from_str::<serde_json::Value>(text) {
        Ok(value) => Ok(json_from_document(&value)),
        Err(error) => Err(error.to_string()),
    }
}

/// The accounts of `gh auth status`, read from its output: sorted, each
/// once. A timeout or output that is not JSON is an error.
pub fn account_list(output: &ProcessOutput) -> (r: Result<Vec<Account>, GitPersonaError>)
    ensures
        output.code is None ==> r is Err && r->Err_0@ == (ErrorKind::Dependency, "GitHub CLI status timed out"@),
        output.code is Some ==> match json_parse_result(output.stdout@) {
            Err(e) => r is Err && r->Err_0@ == (ErrorKind::Dependency, "GitHub CLI returned invalid JSON: "@ + e),
            Ok(v) => r is Ok && accounts_sorted(accounts_view(r->Ok_0)) && same_accounts(
                accounts_view(r->Ok_0),
                json_accounts(v),
            ),
        },
{
    if output.code.is_none() {
        return Err(GitPersonaError::dependency("GitHub CLI status timed out".to_string()));
    }
    let parsed = parse_json(output.stdout.as_str());
    accounts_from_json(output, parsed)
}

/// The accounts of `gh auth status`, given its output and that output read
/// as JSON: sorted, each once.
pub fn accounts_from_json(output: &ProcessOutput, parsed: Result<JsonValue, String>) -> (r: Result<
    Vec<Account>,
    GitPersonaError,
>)
    ensures
        output.code is None ==> r is Err && r->Err_0@ == (ErrorKind::Dependency, "GitHub CLI status timed out"@),
        output.code is Some ==> match parsed {
            Err(e) => r is Err && r->Err_0@ == (
                ErrorKind::Dependency,
                "GitHub CLI returned invalid JSON: "@ + e@,
            ),
            Ok(v) => r is Ok && accounts_sorted(accounts_view(r->Ok_0)) && same_accounts(
                accounts_view(r->Ok_0),
                json_accounts(v),
            ),
        },
{
    if output.code.is_none() {
        return Err(GitPersonaError::dependency("GitHub CLI status timed out".to_string()));
    }
    match parsed {
        Err(e) => Err(
            GitPersonaError::dependency(cat("GitHub CLI returned invalid JSON: ", e.as_str())),
        ),
        Ok(v) => {
            let mut found: Vec<Account> = Vec::new();
            collect_accounts(&v, &mut found);
            assert(accounts_view(found) =~= json_accounts(v));
            Ok(sort_accounts(found))
        },
    }
}

/// The index of the first active account, if any.
pub open spec fn first_active(s: Seq<AccountView>) -> Option<int> {
    if exists|i: int| 0 <= i < s.len() && s[i].active {
        Some(choose|i: int| 0 <= i < s.len() && s[i].active && forall|j: int| 0 <= j < i ==> !s[j].active)
    } else {
        None
    }
}

fn first_active_index(accounts: &Vec<Account>) -> (r: Option<usize>)
    ensures
        match r {
            Some(i) => i < accounts.len() && accounts@[i as int].active && forall|j: int|
                0 <= j < i ==> !accounts@[j].active,
            None => forall|j: int| 0 <= j < accounts.len() ==> !accounts@[j].active,
        },
{
    let mut i: usize = 0;
    while i < accounts.len()
        invariant
            i <= accounts.len(),
            forall|j: int| 0 <= j < i ==> !accounts@[j].active,
        decreases accounts.len() - i,
    {
        if accounts[i].active {
            return Some(i);
        }
        i = i + 1;
    }
    None
}

/// What the active account of a host is, given its accounts.
pub open spec fn active_result(s: Seq<AccountView>, hostname: Seq<char>) -> Result<
    Option<Seq<char>>,
    ErrorView,
> {
    match first_active(s) {
        None => Ok(None),
        Some(i) => if s[i].valid {
            Ok(Some(s[i].login))
        } else {
            Err(
                (
                    ErrorKind::Dependency,
                    "GitHub CLI could not validate the active account '"@ + s[i].login + "' on "@
                        + hostname,
                ),
            )
        },
    }
}

/// The login of the first active account; an error when GitHub CLI could
/// not validate it.
pub fn active_account_of(accounts: &Vec<Account>, hostname: &str) -> (r: Result<
    Option<String>,
    GitPersonaError,
>)
    ensures
        match (r, active_result(accounts_view(*accounts), hostname@)) {
            (Ok(a), Ok(b)) => opt_view(a) == b,
            (Err(e), Err(f)) => e@ == f,
            _ => false,
        },
{
    let ghost s = accounts_view(*accounts);
    match first_active_index(accounts) {
        None => {
            assert(!exists|i: int| 0 <= i < s.len() && s[i].active);
            Ok(None)
        },
        Some(i) => {
            assert(s[i as int].active);
            let ghost k = choose|k: int| 0 <= k < s.len() && s[k].active && forall|j: int| 0 <= j < k ==> !s[j].active;
            assert(k == i) by {
                if k < i {
                    assert(!accounts@[k].active);
                } else if k > i {
                    assert(!s[i as int].active);
                }
            }
            let a = &accounts[i];
            if a.valid {
                Ok(Some(a.login.clone()))
            } else {
                let msg = cat4(
                    "GitHub CLI could not validate the active account '",
                    a.login.as_str(),
                    "' on ",
                    hostname,
                );
                Err(GitPersonaError::dependency(msg))
            }
        },
    }
}

/// Some valid account of the list is `user`, compared ignoring ASCII case.
pub open spec fn authenticated(s: Seq<AccountView>, user: Seq<char>) -> bool {
    exists|i: int| 0 <= i < s.len() && s[i].valid && eq_ignore_case(s[i].login, user)
}

/// Whether GitHub CLI holds a valid login for `user`.
pub fn is_authenticated_in(accounts: &Vec<Account>, user: &str) -> (r: bool)
    ensures
        r == authenticated(accounts_view(*accounts), user@),
{
    let ghost s = accounts_view(*accounts);
    let mut i: usize = 0;
    while i < accounts.len()
        invariant
            i <= accounts.len(),
            s == accounts_view(*accounts),
            forall|j: int| 0 <= j < i ==> !(s[j].valid && eq_ignore_case(s[j].login, user@)),
        decreases accounts.len() - i,
    {
        if accounts[i].valid && eq_ignore_ascii_case(accounts[i].login.as_str(), user) {
            assert(s[i as int].valid && eq_ignore_case(s[i as int].login, user@));
            return true;
        }
        i = i + 1;
    }
    false
}

/// A switch to `user` is refused unless GitHub CLI holds a valid login for it.
pub fn switch_precheck(accounts: &Vec<Account>, hostname: &str, user: &str) -> (r: Result<
    (),
    GitPersonaError,
>)
    ensures
        r is Ok <==> authenticated(accounts_view(*accounts), user@),
        r is Err ==> r->Err_0@ == (
            ErrorKind::Usage,
            "GitHub CLI is not authenticated as "@ + user@ + " on "@ + hostname@,
        ),
{
    if is_authenticated_in(accounts, user) {
        Ok(())
    } else {
        Err(GitPersonaError::usage(cat4("GitHub CLI is not authenticated as ", user, " on ", hostname)))
    }
}

/// The arguments of `gh` that switch the active account of a host.
pub fn switch_args(hostname: &str, user: &str) -> (r: Vec<String>)
    ensures
        r@.map_values(|a: String| a@) == seq!["auth"@, "switch"@, "--hostname"@, hostname@, "--user"@, user@],
{
    let mut r: Vec<String> = Vec::new();
    r.push("auth".to_string());
    r.push("switch".to_string());
    r.push("--hostname".to_string());
    r.push(hostname.to_string());
    r.push("--user".to_string());
    r.push(user.to_string());
    assert(r@.map_values(|a: String| a@) =~= seq!["auth"@, "switch"@, "--hostname"@, hostname@, "--user"@, user@]);
    r
}

/// A failed `gh auth switch` is reported with its trimmed error output.
pub fn switch_outcome(output: &ProcessOutput) -> (r: Result<(), GitPersonaError>)
    ensures
        r is Ok <==> output.code == Some(0i32),
        r is Err ==> r->Err_0@ == (
            ErrorKind::Dependency,
            "GitHub CLI account switch failed: "@ + trim(output.stderr@),
        ),
{
    if output.success() {
        Ok(())
    } else {
        let t = trim_str(output.stderr.as_str());
        Err(GitPersonaError::dependency(cat("GitHub CLI account switch failed: ", t.as_str())))
    }
}

/// After a switch, the active account must be `user`, compared ignoring
/// ASCII case.
pub fn switch_confirmed(active: &Option<String>, user: &str) -> (r: Result<(), GitPersonaError>)
    ensures
        r is Ok <==> (active is Some && eq_ignore_case(active->Some_0@, user@)),
        r is Err ==> r->Err_0@ == (
            ErrorKind::Dependency,
            "GitHub CLI did not activate "@ + user@ + " after switching"@,
        ),
{
    match active {
        Some(a) => if eq_ignore_ascii_case(a.as_str(), user) {
            return Ok(());
        },
        None => {},
    }
    Err(GitPersonaError::dependency(cat3("GitHub CLI did not activate ", user, " after switching")))
}


/// A failed binding after which GitHub CLI could not be switched back:
/// both are reported.
pub fn switch_back_failure(error: &GitPersonaError, rollback: &GitPersonaError) -> (r: GitPersonaError)
    ensures
        r@ == (ErrorKind::Dependency, error@.1 + "; GitHub CLI rollback also failed: "@ + rollback@.1),
{
    GitPersonaError::dependency(cat3(error.message(), "; GitHub CLI rollback also failed: ", rollback.message()))
}


/// The account reported as active is one GitHub CLI holds a valid login
/// for, so switching to it is never refused.
pub proof fn lemma_active_account_is_authenticated(s: Seq<AccountView>, hostname: Seq<char>, login: Seq<char>)
    requires
        active_result(s, hostname) == Ok::<Option<Seq<char>>, ErrorView>(Some(login)),
    ensures
        authenticated(s, login),
{
    let k = choose|k: int| 0 <= k < s.len() && s[k].active;
    lemma_first_active_exists(s, k);
    let i = first_active(s)->Some_0;
    assert(0 <= i < s.len() && s[i].valid && s[i].login == login);
    assert(eq_ignore_case(s[i].login, login));
}

proof fn lemma_first_active_exists(s: Seq<AccountView>, k: int)
    requires
        0 <= k < s.len(),
        s[k].active,
    ensures
        exists|i: int| 0 <= i < s.len() && s[i].active && forall|j: int| 0 <= j < i ==> !s[j].active,
    decreases k,
{
    if exists|j: int| 0 <= j < k && s[j].active {
        let j = choose|j: int| 0 <= j < k && s[j].active;
        lemma_first_active_exists(s, j);
    } else {
        assert(forall|j: int| 0 <= j < k ==> !s[j].active);
    }
}

/// A sorted account list names no account twice.
pub proof fn lemma_sorted_accounts_are_unique(s: Seq<AccountView>)
    requires
        accounts_sorted(s),
    ensures
        s.no_duplicates(),
{
    assert forall|i: int, j: int| 0 <= i < s.len() && 0 <= j < s.len() && i != j implies s[i] != s[j] by {
        if s[i] == s[j] {
            crate::profiles::lemma_lt_irreflexive(s[i].login);
            if i < j {
                assert(account_lt(s[i], s[j]));
            } else {
                assert(account_lt(s[j], s[i]));
            }
        }
    }
}

} // verus!
