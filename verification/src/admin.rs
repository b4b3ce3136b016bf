//! Accounts, settings, the audit trail, expenses and chat storage.
//!
//! These tables sit beside the accounting core: plain keyed rows with no
//! derived state.  Every operation's effect is stated exactly; reads hand
//! back values equal to a spec-level projection of the store.

use vstd::prelude::*;
use crate::models::{
    ActivityLog, Conversation, Date, Expense, Message, Setting, StoreError, User,
    clone_opt_string, date_le, expense_wf,
};
use crate::reports::{date_key, lemma_insert_multiset, mdate_key};
use crate::store::Store;

verus! {

/// Whether a stored account matches a login attempt, by value.
pub open spec fn user_matches(u: User, name: Seq<char>, pw: Seq<char>) -> bool {
    u.username@ == name && (u.password matches Some(p) && p@ == pw)
}

/// First account matching the attempt, searching from `i`; `-1` when none.
pub open spec fn find_user_from(s: Seq<User>, name: Seq<char>, pw: Seq<char>, i: int) -> int
    decreases s.len() - i,
{
    if i < 0 || i >= s.len() {
        -1
    } else if user_matches(s[i], name, pw) {
        i
    } else {
        find_user_from(s, name, pw, i + 1)
    }
}

proof fn lemma_find_user_prefix(s: Seq<User>, name: Seq<char>, pw: Seq<char>, i: int)
    requires
        0 <= i <= s.len(),
        forall|j: int| 0 <= j < i ==> !user_matches(#[trigger] s[j], name, pw),
    ensures
        find_user_from(s, name, pw, 0) == find_user_from(s, name, pw, i),
    decreases i,
{
    if i > 0 {
        lemma_find_user_prefix(s, name, pw, i - 1);
    }
}

/// The row handed out for an account: everything but the password.
pub open spec fn sanitized(u: User) -> User {
    User { password: None, ..u }
}

fn sanitize(u: &User) -> (r: User)
    ensures
        r == sanitized(*u),
{
    User {
        id: u.id,
        username: u.username.clone(),
        password: None,
        role: u.role.clone(),
        created_at: clone_opt_string(&u.created_at),
    }
}

/// Log in: find an account whose name and password both match, and hand it
/// back without its password.  A failed attempt is `NotFound` and says no
/// more.  The store is not changed.
#[verifier::loop_isolation(false)]
pub fn login(store: &Store, username: String, password: String) -> (r: Result<User, StoreError>)
    ensures
        ({
            let i = find_user_from(store.users@, username@, password@, 0);
            match r {
                Ok(u) => i >= 0 && u == sanitized(store.users@[i]),
                Err(e) => i == -1 && e == StoreError::NotFound,
            }
        }),
{
    let n = store.users.len();
    let mut k: usize = 0;
    while k < n
        invariant
            k <= n,
            forall|j: int| 0 <= j < k ==> !user_matches(#[trigger] store.users@[j], username@, password@),
        decreases n - k,
    {
        let u = &store.users[k];
        let name_ok = u.username == username;
        let pw_ok = match &u.password {
            Some(p) => *p == password,
            None => false,
        };
        if name_ok && pw_ok {
            proof {
                lemma_find_user_prefix(store.users@, username@, password@, k as int);
            }
            return Ok(sanitize(u));
        }
        k += 1;
    }
    proof {
        lemma_find_user_prefix(store.users@, username@, password@, n as int);
    }
    Err(StoreError::NotFound)
}

/// All accounts, in stored order, passwords stripped.
#[verifier::loop_isolation(false)]
pub fn get_users(store: &Store) -> (r: Vec<User>)
    ensures
        r@ == store.users@.map_values(|u: User| sanitized(u)),
{
    let n = store.users.len();
    let mut out: Vec<User> = Vec::new();
    let mut k: usize = 0;
    while k < n
        invariant
            k <= n,
            out@ == store.users@.take(k as int).map_values(|u: User| sanitized(u)),
        decreases n - k,
    {
        out.push(sanitize(&store.users[k]));
        proof {
            assert(store.users@.take(k as int + 1).map_values(|u: User| sanitized(u)) =~= store
                .users@.take(k as int).map_values(|u: User| sanitized(u)).push(
                sanitized(store.users@[k as int]),
            ));
        }
        k += 1;
    }
    proof {
        assert(store.users@.take(n as int) =~= store.users@);
    }
    out
}

/// Create an account.  An absent password is stored as the empty password.
#[verifier::loop_isolation(false)]
pub fn create_user(store: &mut Store, user: User) -> (r: Result<(), StoreError>)
    requires
        old(store).wf(),
        old(store).next_id < 0x7fff_ffff_ffff_ffff,
    ensures
        final(store).wf(),
        r == Ok::<(), StoreError>(()),
        final(store).users@.len() == old(store).users@.len() + 1,
        ({
            let u = final(store).users@.last();
            &&& final(store).users@.drop_last() == old(store).users@
            &&& u.id == old(store).next_id
            &&& u.username == user.username
            &&& u.role == user.role
            &&& u.created_at == user.created_at
            &&& (u.password matches Some(p) && (if user.password is Some {
                p == user.password->Some_0
            } else {
                p@ == Seq::<char>::empty()
            }))
        }),
        final(store).next_id == old(store).next_id + 1,
        *final(store) == (Store {
            users: final(store).users,
            next_id: final(store).next_id,
            ..*old(store)
        }),
{
    let pw = match user.password {
        Some(p) => p,
        None => String::new(),
    };
    store.users.push(
        User {
            id: store.next_id,
            username: user.username,
            password: Some(pw),
            role: user.role,
            created_at: user.created_at,
        },
    );
    store.next_id = store.next_id + 1;
    proof {
        assert(store.users@.drop_last() =~= old(store).users@);
    }
    Ok(())
}

/// The account table with every row of one id taken out.
pub open spec fn users_removed(s: Seq<User>, id: i64) -> Seq<User>
    decreases s.len(),
{
    if s.len() == 0 {
        s
    } else {
        let rest = users_removed(s.drop_last(), id);
        if s.last().id == id {
            rest
        } else {
            rest.push(s.last())
        }
    }
}

/// Delete an account by id.
#[verifier::loop_isolation(false)]
pub fn delete_user(store: &mut Store, id: i64) -> (r: Result<(), StoreError>)
    requires
        old(store).wf(),
    ensures
        final(store).wf(),
        r == Ok::<(), StoreError>(()),
        final(store).users@ == users_removed(old(store).users@, id),
        *final(store) == (Store { users: final(store).users, ..*old(store) }),
{
    let ghost users0 = store.users@;
    let mut kept: Vec<User> = Vec::new();
    let n = store.users.len();
    let mut k: usize = 0;
    while k < n
        invariant
            k <= n,
            store.users@ == users0,
            kept@ == users_removed(users0.take(k as int), id),
        decreases n - k,
    {
        proof {
            assert(users0.take(k as int + 1).drop_last() =~= users0.take(k as int));
            assert(users0.take(k as int + 1).last() == users0[k as int]);
        }
        if store.users[k].id != id {
            let u = &store.users[k];
            let row = User {
                id: u.id,
                username: u.username.clone(),
                password: clone_opt_string(&u.password),
                role: u.role.clone(),
                created_at: clone_opt_string(&u.created_at),
            };
            proof {
                assert(row == users0[k as int]);
            }
            kept.push(row);
        }
        k += 1;
    }
    proof {
        assert(users0.take(n as int) =~= users0);
    }
    store.users = kept;
    Ok(())
}

/// Whether first-run setup is still needed: no account exists yet.
pub fn check_setup_required(store: &Store) -> (r: bool)
    ensures
        r == (store.users@.len() == 0),
{
    store.users.len() == 0
}

/// First-run setup: create the one administrator account.  Refused once any
/// account exists.
#[verifier::loop_isolation(false)]
pub fn setup_admin(store: &mut Store, username: String, password: String) -> (r: Result<
    User,
    StoreError,
>)
    requires
        old(store).wf(),
        old(store).next_id < 0x7fff_ffff_ffff_ffff,
    ensures
        final(store).wf(),
        old(store).users@.len() > 0 ==> r == Err::<User, StoreError>(StoreError::Validation)
            && *final(store) == *old(store),
        old(store).users@.len() == 0 ==> {
            &&& r is Ok
            &&& final(store).users@.len() == 1
            &&& ({
                let u = final(store).users@[0];
                u.id == old(store).next_id && u.username@ == username@ && (u.password matches Some(
                    p,
                ) && p@ == password@) && u.role@ == "super_admin"@ && u.created_at is None
            })
            &&& ({
                let ret = r->Ok_0;
                ret.id == old(store).next_id && ret.username@ == username@ && ret.password is None
                    && ret.role@ == "super_admin"@ && ret.created_at is None
            })
            &&& final(store).next_id == old(store).next_id + 1
            &&& *final(store) == (Store {
                users: final(store).users,
                next_id: final(store).next_id,
                ..*old(store)
            })
        },
{
    if store.users.len() > 0 {
        return Err(StoreError::Validation);
    }
    let id = store.next_id;
    store.users.push(
        User {
            id,
            username: username.clone(),
            password: Some(password),
            role: "super_admin".to_owned(),
            created_at: None,
        },
    );
    store.next_id = id + 1;
    Ok(User { id, username, password: None, role: "super_admin".to_owned(), created_at: None })
}

/// The account table with one id's passwords replaced.
pub open spec fn users_password_set(s: Seq<User>, id: i64, pw: String) -> Seq<User> {
    Seq::new(
        s.len(),
        |k: int| if s[k].id == id {
            User { password: Some(pw), ..s[k] }
        } else {
            s[k]
        },
    )
}

/// Change an account's password.  Unless the caller is a super administrator,
/// the current password must match an account with that id; a mismatch is
/// refused as `Validation` with nothing changed.
#[verifier::loop_isolation(false)]
pub fn change_password(
    store: &mut Store,
    user_id: i64,
    current_password: String,
    new_password: String,
    is_super_admin: bool,
) -> (r: Result<(), StoreError>)
    requires
        old(store).wf(),
    ensures
        final(store).wf(),
        ({
            let authorized = is_super_admin || exists|j: int|
                0 <= j < old(store).users@.len() && (#[trigger] old(store).users@[j]).id == user_id
                    && (old(store).users@[j].password matches Some(p) && p@ == current_password@);
            match r {
                Ok(u) => authorized && final(store).users@ == users_password_set(
                    old(store).users@,
                    user_id,
                    new_password,
                ) && *final(store) == (Store { users: final(store).users, ..*old(store) }),
                Err(e) => !authorized && e == StoreError::Validation && *final(store) == *old(
                    store,
                ),
            }
        }),
{
    if !is_super_admin {
        let n = store.users.len();
        let mut found = false;
        let mut k: usize = 0;
        while k < n
            invariant
                k <= n,
                found == exists|j: int|
                    0 <= j < k && (#[trigger] store.users@[j]).id == user_id
                        && (store.users@[j].password matches Some(p) && p@ == current_password@),
            decreases n - k,
        {
            let u = &store.users[k];
            if u.id == user_id {
                match &u.password {
                    Some(p) => {
                        if *p == current_password {
                            found = true;
                        }
                    },
                    None => {},
                }
            }
            k += 1;
        }
        if !found {
            return Err(StoreError::Validation);
        }
    }
    let ghost users0 = store.users@;
    let mut updated: Vec<User> = Vec::new();
    let n = store.users.len();
    let mut k: usize = 0;
    while k < n
        invariant
            k <= n,
            store.users@ == users0,
            updated@.len() == k,
            forall|j: int|
                0 <= j < k ==> #[trigger] updated@[j] == users_password_set(
                    users0,
                    user_id,
                    new_password,
                )[j],
        decreases n - k,
    {
        let u = &store.users[k];
        if u.id == user_id {
            updated.push(
                User {
                    id: u.id,
                    username: u.username.clone(),
                    password: Some(new_password.clone()),
                    role: u.role.clone(),
                    created_at: clone_opt_string(&u.created_at),
                },
            );
        } else {
            updated.push(
                User {
                    id: u.id,
                    username: u.username.clone(),
                    password: clone_opt_string(&u.password),
                    role: u.role.clone(),
                    created_at: clone_opt_string(&u.created_at),
                },
            );
        }
        k += 1;
    }
    store.users = updated;
    proof {
        assert(store.users@ =~= users_password_set(users0, user_id, new_password));
    }
    Ok(())
}

/// The account table with one id's role replaced.
pub open spec fn users_role_set(s: Seq<User>, id: i64, role: String) -> Seq<User> {
    Seq::new(
        s.len(),
        |k: int| if s[k].id == id {
            User { role, ..s[k] }
        } else {
            s[k]
        },
    )
}

/// Change an account's role.
#[verifier::loop_isolation(false)]
pub fn update_user_role(store: &mut Store, user_id: i64, new_role: String) -> (r: Result<
    (),
    StoreError,
>)
    requires
        old(store).wf(),
    ensures
        final(store).wf(),
        r == Ok::<(), StoreError>(()),
        final(store).users@ == users_role_set(old(store).users@, user_id, new_role),
        *final(store) == (Store { users: final(store).users, ..*old(store) }),
{
    let ghost users0 = store.users@;
    let mut updated: Vec<User> = Vec::new();
    let n = store.users.len();
    let mut k: usize = 0;
    while k < n
        invariant
            k <= n,
            store.users@ == users0,
            updated@.len() == k,
            forall|j: int|
                0 <= j < k ==> #[trigger] updated@[j] == users_role_set(users0, user_id, new_role)[j],
        decreases n - k,
    {
        let u = &store.users[k];
        if u.id == user_id {
            updated.push(
                User {
                    id: u.id,
                    username: u.username.clone(),
                    password: clone_opt_string(&u.password),
                    role: new_role.clone(),
                    created_at: clone_opt_string(&u.created_at),
                },
            );
        } else {
            updated.push(
                User {
                    id: u.id,
                    username: u.username.clone(),
                    password: clone_opt_string(&u.password),
                    role: u.role.clone(),
                    created_at: clone_opt_string(&u.created_at),
                },
            );
        }
        k += 1;
    }
    store.users = updated;
    proof {
        assert(store.users@ =~= users_role_set(users0, user_id, new_role));
    }
    Ok(())
}

/// First settings row holding `key`, searching from `i`; `-1` when none.
pub open spec fn find_setting_from(s: Seq<Setting>, key: Seq<char>, i: int) -> int
    decreases s.len() - i,
{
    if i < 0 || i >= s.len() {
        -1
    } else if s[i].key@ == key {
        i
    } else {
        find_setting_from(s, key, i + 1)
    }
}

proof fn lemma_find_setting_prefix(s: Seq<Setting>, key: Seq<char>, i: int)
    requires
        0 <= i <= s.len(),
        forall|j: int| 0 <= j < i ==> (#[trigger] s[j]).key@ != key,
    ensures
        find_setting_from(s, key, 0) == find_setting_from(s, key, i),
    decreases i,
{
    if i > 0 {
        lemma_find_setting_prefix(s, key, i - 1);
    }
}

/// Find a settings row by key.
#[verifier::loop_isolation(false)]
pub fn find_setting(settings: &Vec<Setting>, key: &String) -> (r: Option<usize>)
    ensures
        r matches Some(i) ==> find_setting_from(settings@, key@, 0) == i as int && i
            < settings@.len() && settings@[i as int].key@ == key@,
        r is None ==> find_setting_from(settings@, key@, 0) == -1,
{
    let n = settings.len();
    let mut k: usize = 0;
    while k < n
        invariant
            k <= n,
            forall|j: int| 0 <= j < k ==> (#[trigger] settings@[j]).key@ != key@,
        decreases n - k,
    {
        if settings[k].key == *key {
            proof {
                lemma_find_setting_prefix(settings@, key@, k as int);
            }
            return Some(k);
        }
        k += 1;
    }
    proof {
        lemma_find_setting_prefix(settings@, key@, n as int);
    }
    None
}

/// All settings rows, in stored order.
#[verifier::loop_isolation(false)]
pub fn get_settings(store: &Store) -> (r: Vec<Setting>)
    ensures
        r@ == store.settings@,
{
    let n = store.settings.len();
    let mut out: Vec<Setting> = Vec::new();
    let mut k: usize = 0;
    while k < n
        invariant
            k <= n,
            out@ == store.settings@.take(k as int),
        decreases n - k,
    {
        let s = &store.settings[k];
        let row = Setting { key: s.key.clone(), value: s.value.clone() };
        proof {
            assert(row == store.settings@[k as int]);
            assert(store.settings@.take(k as int + 1) =~= store.settings@.take(k as int).push(
                store.settings@[k as int],
            ));
        }
        out.push(row);
        k += 1;
    }
    proof {
        assert(store.settings@.take(n as int) =~= store.settings@);
    }
    out
}

/// One row written into the settings table: replace the row with its key, or
/// append one.
pub open spec fn upsert_one(s: Seq<Setting>, kv: Setting) -> Seq<Setting> {
    let i = find_setting_from(s, kv.key@, 0);
    if i >= 0 {
        s.update(i, kv)
    } else {
        s.push(kv)
    }
}

/// All given rows written in order.
pub open spec fn upsert_all(s: Seq<Setting>, items: Seq<Setting>, n: int) -> Seq<Setting>
    decreases n,
{
    if n <= 0 {
        s
    } else {
        upsert_one(upsert_all(s, items, n - 1), items[n - 1])
    }
}

/// Write settings rows: each key's row is replaced, or appended when new.
#[verifier::loop_isolation(false)]
pub fn update_settings(store: &mut Store, settings: Vec<Setting>) -> (r: Result<(), StoreError>)
    requires
        old(store).wf(),
    ensures
        final(store).wf(),
        r == Ok::<(), StoreError>(()),
        final(store).settings@ == upsert_all(
            old(store).settings@,
            settings@,
            settings@.len() as int,
        ),
        *final(store) == (Store { settings: final(store).settings, ..*old(store) }),
{
    let n = settings.len();
    let mut k: usize = 0;
    while k < n
        invariant
            k <= n,
            store.settings@ == upsert_all(old(store).settings@, settings@, k as int),
            *store == (Store { settings: store.settings, ..*old(store) }),
        decreases n - k,
    {
        let kv = Setting { key: settings[k].key.clone(), value: settings[k].value.clone() };
        proof {
            assert(kv == settings@[k as int]);
        }
        match find_setting(&store.settings, &kv.key) {
            Some(i) => {
                store.settings.set(i, kv);
            },
            None => {
                store.settings.push(kv);
            },
        }
        k += 1;
    }
    Ok(())
}

/// Append an audit-trail row.  The caller supplies the wall-clock stamp,
/// since the clock belongs to the boundary.
#[verifier::loop_isolation(false)]
pub fn log_activity(
    store: &mut Store,
    user_id: Option<i64>,
    username: String,
    action: String,
    entity_type: String,
    entity_id: Option<i64>,
    description: String,
    created_at: Option<String>,
) -> (r: Result<(), StoreError>)
    requires
        old(store).wf(),
        old(store).next_id < 0x7fff_ffff_ffff_ffff,
    ensures
        final(store).wf(),
        r == Ok::<(), StoreError>(()),
        final(store).activity_logs@ == old(store).activity_logs@.push(
            ActivityLog {
                id: old(store).next_id,
                user_id,
                username,
                action,
                entity_type,
                entity_id,
                description,
                created_at,
            },
        ),
        final(store).next_id == old(store).next_id + 1,
        *final(store) == (Store {
            activity_logs: final(store).activity_logs,
            next_id: final(store).next_id,
            ..*old(store)
        }),
{
    store.activity_logs.push(
        ActivityLog {
            id: store.next_id,
            user_id,
            username,
            action,
            entity_type,
            entity_id,
            description,
            created_at,
        },
    );
    store.next_id = store.next_id + 1;
    Ok(())
}

/// A page of the audit trail, newest first: rows are stored in insertion
/// order, so the page walks the table backwards from `offset` rows before the
/// end, at most `limit` rows.
#[verifier::loop_isolation(false)]
pub fn get_activity_logs(store: &Store, limit: usize, offset: usize) -> (r: Vec<ActivityLog>)
    ensures
        r@.len() == if offset < store.activity_logs@.len() {
            vstd::math::min((store.activity_logs@.len() - offset) as int, limit as int)
        } else {
            0
        },
        forall|k: int|
            0 <= k < r@.len() ==> #[trigger] r@[k] == store.activity_logs@[store.activity_logs@.len()
                - 1 - offset - k],
{
    let n = store.activity_logs.len();
    let mut out: Vec<ActivityLog> = Vec::new();
    if offset >= n {
        return out;
    }
    let avail = n - offset;
    let cnt = if limit < avail {
        limit
    } else {
        avail
    };
    let mut k: usize = 0;
    while k < cnt
        invariant
            k <= cnt,
            cnt <= avail,
            avail == n - offset,
            offset < n,
            n == store.activity_logs@.len(),
            out@.len() == k,
            forall|j: int|
                0 <= j < k ==> #[trigger] out@[j] == store.activity_logs@[n - 1 - offset - j],
        decreases cnt - k,
    {
        let idx = n - 1 - offset - k;
        let a = &store.activity_logs[idx];
        let row = ActivityLog {
            id: a.id,
            user_id: a.user_id,
            username: a.username.clone(),
            action: a.action.clone(),
            entity_type: a.entity_type.clone(),
            entity_id: a.entity_id,
            description: a.description.clone(),
            created_at: clone_opt_string(&a.created_at),
        };
        proof {
            assert(row == store.activity_logs@[idx as int]);
        }
        out.push(row);
        k += 1;
    }
    out
}

/// Record an expense.
#[verifier::loop_isolation(false)]
pub fn create_expense(store: &mut Store, expense: Expense) -> (r: Result<(), StoreError>)
    requires
        old(store).wf(),
        expense_wf(expense),
        old(store).next_id < 0x7fff_ffff_ffff_ffff,
    ensures
        final(store).wf(),
        r == Ok::<(), StoreError>(()),
        final(store).expenses@ == old(store).expenses@.push(
            Expense { id: old(store).next_id, ..expense },
        ),
        final(store).next_id == old(store).next_id + 1,
        *final(store) == (Store {
            expenses: final(store).expenses,
            next_id: final(store).next_id,
            ..*old(store)
        }),
{
    store.expenses.push(Expense { id: store.next_id, ..expense });
    store.next_id = store.next_id + 1;
    Ok(())
}

/// The expense rows over the first `n`, kept when no range is given, or when
/// dated within the closed range.
pub open spec fn expense_rows(
    s: Seq<Expense>,
    range: Option<(Date, Date)>,
    n: int,
) -> Seq<Expense>
    decreases n,
{
    if n <= 0 {
        Seq::<Expense>::empty()
    } else {
        let rest = expense_rows(s, range, n - 1);
        let keep = match range {
            None => true,
            Some(se) => s[n - 1].expense_date matches Some(d) && date_le(se.0, d) && date_le(
                d,
                se.1,
            ),
        };
        if keep {
            rest.push(s[n - 1])
        } else {
            rest
        }
    }
}

/// Descending by expense date.
pub open spec fn expenses_sorted(s: Seq<Expense>) -> bool {
    forall|i: int, j: int|
        0 <= i < j < s.len() ==> mdate_key((#[trigger] s[j]).expense_date) <= mdate_key(
            (#[trigger] s[i]).expense_date,
        )
}

/// Insert an expense at its place in the date-descending listing.
#[verifier::loop_isolation(false)]
fn insert_expense_row(out: &mut Vec<Expense>, row: Expense)
    requires
        expenses_sorted(old(out)@),
    ensures
        final(out)@.to_multiset() == old(out)@.to_multiset().insert(row),
        expenses_sorted(final(out)@),
        final(out)@.len() == old(out)@.len() + 1,
{
    let rk = date_key(&row.expense_date);
    let mut pos: usize = 0;
    while pos < out.len() && date_key(&out[pos].expense_date) >= rk
        invariant
            pos <= out@.len(),
            out@ == old(out)@,
            forall|i: int|
                0 <= i < pos ==> mdate_key(row.expense_date) <= mdate_key(
                    (#[trigger] out@[i]).expense_date,
                ),
        decreases out@.len() - pos,
    {
        pos += 1;
    }
    let ghost out0 = out@;
    out.insert(pos, row);
    proof {
        let p0 = pos as int;
        lemma_insert_multiset(out0, p0, row);
        assert forall|i: int, j: int| 0 <= i < j < out@.len() implies mdate_key(
            (#[trigger] out@[j]).expense_date,
        ) <= mdate_key((#[trigger] out@[i]).expense_date) by {
            if i < p0 && j == p0 {
            } else if i == p0 && j > p0 {
            }
        }
    }
}

/// Expenses, optionally restricted to a date range; both bounds must be given
/// for the range to apply, as in the stored system.  Rows come newest first;
/// rows of equal date are not ordered further.
#[verifier::loop_isolation(false)]
pub fn get_expenses(store: &Store, start_date: Option<Date>, end_date: Option<Date>) -> (r: Vec<
    Expense,
>)
    ensures
        ({
            let range: Option<(Date, Date)> = if start_date is Some && end_date is Some {
                Some((start_date->Some_0, end_date->Some_0))
            } else {
                None
            };
            r@.to_multiset() == expense_rows(
                store.expenses@,
                range,
                store.expenses@.len() as int,
            ).to_multiset()
        }),
        expenses_sorted(r@),
{
    broadcast use vstd::seq_lib::group_to_multiset_ensures;

    let ghost range: Option<(Date, Date)> = if start_date is Some && end_date is Some {
        Some((start_date->Some_0, end_date->Some_0))
    } else {
        None
    };
    let n = store.expenses.len();
    let mut out: Vec<Expense> = Vec::new();
    let ghost mut rows: Seq<Expense> = Seq::empty();
    let mut k: usize = 0;
    while k < n
        invariant
            k <= n,
            rows == expense_rows(store.expenses@, range, k as int),
            out@.to_multiset() == rows.to_multiset(),
            expenses_sorted(out@),
        decreases n - k,
    {
        let e = &store.expenses[k];
        let keep = match (&start_date, &end_date) {
            (Some(s0), Some(e0)) => match &e.expense_date {
                Some(d) => s0.on_or_before(*d) && d.on_or_before(*e0),
                None => false,
            },
            _ => true,
        };
        if keep {
            let row = Expense {
                id: e.id,
                expense_date: e.expense_date,
                category: e.category.clone(),
                amount: e.amount,
                notes: clone_opt_string(&e.notes),
                created_at: clone_opt_string(&e.created_at),
            };
            proof {
                assert(row == store.expenses@[k as int]);
            }
            insert_expense_row(&mut out, row);
            proof {
                rows = rows.push(row);
            }
        }
        k += 1;
    }
    out
}

/// The expense table with one id's rows replaced by the given fields.
pub open spec fn expenses_set(s: Seq<Expense>, id: i64, e: Expense) -> Seq<Expense> {
    Seq::new(
        s.len(),
        |k: int| if s[k].id == id {
            Expense { id, created_at: s[k].created_at, ..e }
        } else {
            s[k]
        },
    )
}

/// Revise an expense by id; the creation stamp is kept.
#[verifier::loop_isolation(false)]
pub fn update_expense(store: &mut Store, id: i64, expense: Expense) -> (r: Result<(), StoreError>)
    requires
        old(store).wf(),
        expense_wf(expense),
    ensures
        final(store).wf(),
        r == Ok::<(), StoreError>(()),
        final(store).expenses@ == expenses_set(old(store).expenses@, id, expense),
        *final(store) == (Store { expenses: final(store).expenses, ..*old(store) }),
{
    let ghost exp0 = store.expenses@;
    let mut updated: Vec<Expense> = Vec::new();
    let n = store.expenses.len();
    let mut k: usize = 0;
    while k < n
        invariant
            k <= n,
            store.expenses@ == exp0,
            updated@.len() == k,
            forall|j: int|
                0 <= j < k ==> #[trigger] updated@[j] == expenses_set(exp0, id, expense)[j],
        decreases n - k,
    {
        let e = &store.expenses[k];
        if e.id == id {
            updated.push(
                Expense {
                    id,
                    expense_date: expense.expense_date,
                    category: expense.category.clone(),
                    amount: expense.amount,
                    notes: clone_opt_string(&expense.notes),
                    created_at: clone_opt_string(&e.created_at),
                },
            );
        } else {
            updated.push(
                Expense {
                    id: e.id,
                    expense_date: e.expense_date,
                    category: e.category.clone(),
                    amount: e.amount,
                    notes: clone_opt_string(&e.notes),
                    created_at: clone_opt_string(&e.created_at),
                },
            );
        }
        k += 1;
    }
    store.expenses = updated;
    proof {
        assert(store.expenses@ =~= expenses_set(exp0, id, expense));
    }
    Ok(())
}

/// The expense table with one id's rows taken out.
pub open spec fn expenses_removed(s: Seq<Expense>, id: i64) -> Seq<Expense>
    decreases s.len(),
{
    if s.len() == 0 {
        s
    } else {
        let rest = expenses_removed(s.drop_last(), id);
        if s.last().id == id {
            rest
        } else {
            rest.push(s.last())
        }
    }
}

/// Delete an expense by id.
#[verifier::loop_isolation(false)]
pub fn delete_expense(store: &mut Store, id: i64) -> (r: Result<(), StoreError>)
    requires
        old(store).wf(),
    ensures
        final(store).wf(),
        r == Ok::<(), StoreError>(()),
        final(store).expenses@ == expenses_removed(old(store).expenses@, id),
        *final(store) == (Store { expenses: final(store).expenses, ..*old(store) }),
{
    let ghost exp0 = store.expenses@;
    let mut kept: Vec<Expense> = Vec::new();
    let n = store.expenses.len();
    let mut k: usize = 0;
    while k < n
        invariant
            k <= n,
            store.expenses@ == exp0,
            kept@ == expenses_removed(exp0.take(k as int), id),
            crate::store::expenses_wf(kept@),
        decreases n - k,
    {
        proof {
            assert(exp0.take(k as int + 1).drop_last() =~= exp0.take(k as int));
            assert(exp0.take(k as int + 1).last() == exp0[k as int]);
        }
        if store.expenses[k].id != id {
            let e = &store.expenses[k];
            let row = Expense {
                id: e.id,
                expense_date: e.expense_date,
                category: e.category.clone(),
                amount: e.amount,
                notes: clone_opt_string(&e.notes),
                created_at: clone_opt_string(&e.created_at),
            };
            proof {
                assert(row == exp0[k as int]);
            }
            kept.push(row);
        }
        k += 1;
    }
    proof {
        assert(exp0.take(n as int) =~= exp0);
    }
    store.expenses = kept;
    Ok(())
}

/// Open a chat conversation; the new id is returned.  Its timestamp is left
/// empty: wall-clock stamps belong to the boundary.
#[verifier::loop_isolation(false)]
pub fn create_conversation(store: &mut Store, title: String) -> (r: Result<i64, StoreError>)
    requires
        old(store).wf(),
        old(store).next_id < 0x7fff_ffff_ffff_ffff,
    ensures
        final(store).wf(),
        r == Ok::<i64, StoreError>(old(store).next_id),
        final(store).conversations@.len() == old(store).conversations@.len() + 1,
        final(store).conversations@.drop_last() == old(store).conversations@,
        ({
            let c = final(store).conversations@.last();
            c.id == old(store).next_id && c.title == title && c.created_at@ == Seq::<char>::empty()
        }),
        final(store).next_id == old(store).next_id + 1,
        *final(store) == (Store {
            conversations: final(store).conversations,
            next_id: final(store).next_id,
            ..*old(store)
        }),
{
    let id = store.next_id;
    store.conversations.push(Conversation { id, title, created_at: String::new() });
    store.next_id = id + 1;
    proof {
        assert(store.conversations@.drop_last() =~= old(store).conversations@);
    }
    Ok(id)
}

/// All conversations, most recent first (stored order reversed).
#[verifier::loop_isolation(false)]
pub fn get_conversations(store: &Store) -> (r: Vec<Conversation>)
    ensures
        r@.len() == store.conversations@.len(),
        forall|k: int|
            0 <= k < r@.len() ==> #[trigger] r@[k] == store.conversations@[store.conversations@.len()
                - 1 - k],
{
    let n = store.conversations.len();
    let mut out: Vec<Conversation> = Vec::new();
    let mut k: usize = 0;
    while k < n
        invariant
            k <= n,
            n == store.conversations@.len(),
            out@.len() == k,
            forall|j: int| 0 <= j < k ==> #[trigger] out@[j] == store.conversations@[n - 1 - j],
        decreases n - k,
    {
        let c = &store.conversations[n - 1 - k];
        let row = Conversation { id: c.id, title: c.title.clone(), created_at: c.created_at.clone() };
        proof {
            assert(row == store.conversations@[n - 1 - k as int]);
        }
        out.push(row);
        k += 1;
    }
    out
}

/// The messages of one conversation over the first `n` rows, oldest first.
pub open spec fn messages_of(s: Seq<Message>, cid: i64, n: int) -> Seq<Message>
    decreases n,
{
    if n <= 0 {
        Seq::<Message>::empty()
    } else {
        let rest = messages_of(s, cid, n - 1);
        if s[n - 1].conversation_id == cid {
            rest.push(s[n - 1])
        } else {
            rest
        }
    }
}

/// The messages of one conversation, in stored (chronological) order.
#[verifier::loop_isolation(false)]
pub fn get_messages(store: &Store, conversation_id: i64) -> (r: Vec<Message>)
    ensures
        r@ == messages_of(store.messages@, conversation_id, store.messages@.len() as int),
{
    let n = store.messages.len();
    let mut out: Vec<Message> = Vec::new();
    let mut k: usize = 0;
    while k < n
        invariant
            k <= n,
            out@ == messages_of(store.messages@, conversation_id, k as int),
        decreases n - k,
    {
        let m = &store.messages[k];
        if m.conversation_id == conversation_id {
            let row = Message {
                id: m.id,
                conversation_id: m.conversation_id,
                sender: m.sender.clone(),
                content: m.content.clone(),
                created_at: m.created_at.clone(),
            };
            proof {
                assert(row == store.messages@[k as int]);
            }
            out.push(row);
        }
        k += 1;
    }
    out
}

/// Append one message to a conversation and hand the stored row back.
/// The conversation need not exist, as in the stored system.
#[verifier::loop_isolation(false)]
pub fn add_message(store: &mut Store, conversation_id: i64, sender: String, content: String) -> (r:
    Result<Message, StoreError>)
    requires
        old(store).wf(),
        old(store).next_id < 0x7fff_ffff_ffff_ffff,
    ensures
        final(store).wf(),
        r is Ok,
        final(store).messages@.len() == old(store).messages@.len() + 1,
        final(store).messages@.drop_last() == old(store).messages@,
        ({
            let m = final(store).messages@.last();
            m.id == old(store).next_id && m.conversation_id == conversation_id && m.sender == sender
                && m.content == content && m.created_at@ == Seq::<char>::empty() && r->Ok_0 == m
        }),
        final(store).next_id == old(store).next_id + 1,
        *final(store) == (Store {
            messages: final(store).messages,
            next_id: final(store).next_id,
            ..*old(store)
        }),
{
    let id = store.next_id;
    store.messages.push(
        Message { id, conversation_id, sender, content, created_at: String::new() },
    );
    store.next_id = id + 1;
    proof {
        assert(store.messages@.drop_last() =~= old(store).messages@);
    }
    let m = &store.messages[store.messages.len() - 1];
    let row = Message {
        id: m.id,
        conversation_id: m.conversation_id,
        sender: m.sender.clone(),
        content: m.content.clone(),
        created_at: m.created_at.clone(),
    };
    proof {
        assert(row == store.messages@.last());
    }
    Ok(row)
}

/// The conversation table with one id's rows taken out; its messages are
/// left behind, as the stored system leaves them.
pub open spec fn conversations_removed(s: Seq<Conversation>, id: i64) -> Seq<Conversation>
    decreases s.len(),
{
    if s.len() == 0 {
        s
    } else {
        let rest = conversations_removed(s.drop_last(), id);
        if s.last().id == id {
            rest
        } else {
            rest.push(s.last())
        }
    }
}

/// Delete a conversation header by id.
#[verifier::loop_isolation(false)]
pub fn delete_conversation(store: &mut Store, conversation_id: i64) -> (r: Result<(), StoreError>)
    requires
        old(store).wf(),
    ensures
        final(store).wf(),
        r == Ok::<(), StoreError>(()),
        final(store).conversations@ == conversations_removed(
            old(store).conversations@,
            conversation_id,
        ),
        *final(store) == (Store { conversations: final(store).conversations, ..*old(store) }),
{
    let ghost conv0 = store.conversations@;
    let mut kept: Vec<Conversation> = Vec::new();
    let n = store.conversations.len();
    let mut k: usize = 0;
    while k < n
        invariant
            k <= n,
            store.conversations@ == conv0,
            kept@ == conversations_removed(conv0.take(k as int), conversation_id),
        decreases n - k,
    {
        proof {
            assert(conv0.take(k as int + 1).drop_last() =~= conv0.take(k as int));
            assert(conv0.take(k as int + 1).last() == conv0[k as int]);
        }
        if store.conversations[k].id != conversation_id {
            let c = &store.conversations[k];
            let row = Conversation {
                id: c.id,
                title: c.title.clone(),
                created_at: c.created_at.clone(),
            };
            proof {
                assert(row == conv0[k as int]);
            }
            kept.push(row);
        }
        k += 1;
    }
    proof {
        assert(conv0.take(n as int) =~= conv0);
    }
    store.conversations = kept;
    Ok(())
}

} // verus!
