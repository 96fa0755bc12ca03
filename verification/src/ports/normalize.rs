//! Normalization of raw TCP listeners into stable, deduplicated port rows.
//!
//! Listeners on the same port and bind scope (the wildcard address, a
//! loopback address, or one specific address) form one row, whatever their
//! address family: a dual-stack service is one row, and `SO_REUSEPORT`
//! listeners share one row with every owning process listed once, by pid.
//! Each row has a key `tcp|<scope>|<port>|<lowest pid>`, and rows come sorted
//! by key, so the output does not depend on the order of the scan.
use vstd::prelude::*;
use vstd::string::*;

use super::addr::{
    ip_is_loopback, ip_is_unspecified, ip_text, ip_to_text, is_loopback, is_unspecified, lemma_ip_text_lacks,
    lemma_ip_text_lacks_bar,
    IpAddress, SocketAddress,
};
use super::{AddressFamily, BindScope, PortListener, PortOwner, PortRow, Protocol};
use crate::text::{
    decimal, decimal_string, lacks, lemma_decimal_injective, lemma_decimal_lacks, lemma_lacks_concat,
    lemma_split_at_separator, lemma_text_lt_asymmetric, lemma_text_lt_irreflexive,
    lemma_text_lt_total, lemma_text_lt_transitive, text_less, text_lt,
};

verus! {

/// The scope text of an address: `*`, `loopback`, or the address itself.
pub open spec fn token_of(ip: IpAddress) -> Seq<char> {
    if is_unspecified(ip) {
        "*"@
    } else if is_loopback(ip) {
        "loopback"@
    } else {
        ip_text(ip)
    }
}

/// The bind scope of an address.
pub open spec fn scope_of(ip: IpAddress) -> BindScope {
    if is_unspecified(ip) {
        BindScope::AllInterfaces
    } else if is_loopback(ip) {
        BindScope::Loopback
    } else {
        BindScope::Specific
    }
}

/// The address shown for a specific bind, none for wildcard or loopback.
pub open spec fn specific_of(ip: IpAddress) -> Option<Seq<char>> {
    if is_unspecified(ip) || is_loopback(ip) {
        None
    } else {
        Some(ip_text(ip))
    }
}

/// The address family of an address.
pub open spec fn family_of(ip: IpAddress) -> AddressFamily {
    match ip {
        IpAddress::V4(_) => AddressFamily::V4,
        IpAddress::V6(_) => AddressFamily::V6,
    }
}

/// The view of an optional text.
pub open spec fn opt_text(s: Option<String>) -> Option<Seq<char>> {
    match s {
        Some(t) => Some(t@),
        None => None,
    }
}

/// Whether a listener belongs to the row of `(port, token)`.
pub open spec fn in_group(l: PortListener, port: u16, token: Seq<char>) -> bool {
    l.socket.port == port && token_of(l.socket.ip) == token
}

/// `ls[i]` is the first of the first `n` listeners in the row of `(port, token)`.
pub open spec fn group_first(ls: Seq<PortListener>, n: int, port: u16, token: Seq<char>, i: int) -> bool {
    &&& 0 <= i < n
    &&& in_group(ls[i], port, token)
    &&& forall|j: int| 0 <= j < i ==> !in_group(#[trigger] ls[j], port, token)
}

/// Some listener of the row, among the first `n`, has family `f`.
pub open spec fn group_has_family(
    ls: Seq<PortListener>,
    n: int,
    port: u16,
    token: Seq<char>,
    f: AddressFamily,
) -> bool {
    exists|i: int| 0 <= i < n && #[trigger] in_group(ls[i], port, token) && family_of(ls[i].socket.ip) == f
}

/// The families of a row, in order: V4 before V6.
pub open spec fn families_of(ls: Seq<PortListener>, n: int, port: u16, token: Seq<char>) -> Seq<AddressFamily> {
    (if group_has_family(ls, n, port, token, AddressFamily::V4) {
        seq![AddressFamily::V4]
    } else {
        Seq::empty()
    }) + (if group_has_family(ls, n, port, token, AddressFamily::V6) {
        seq![AddressFamily::V6]
    } else {
        Seq::empty()
    })
}

/// `ls[i]` is the first listener of the row (among the first `n`) owned by `pid`.
pub open spec fn pid_first(ls: Seq<PortListener>, n: int, port: u16, token: Seq<char>, pid: u32, i: int) -> bool {
    &&& 0 <= i < n
    &&& in_group(ls[i], port, token)
    &&& ls[i].process.pid == pid
    &&& forall|j: int| 0 <= j < i ==> !(#[trigger] in_group(ls[j], port, token) && ls[j].process.pid == pid)
}

/// `o` describes its pid as the first listener of the row with that pid does.
pub open spec fn owner_from(ls: Seq<PortListener>, n: int, port: u16, token: Seq<char>, o: PortOwner) -> bool {
    exists|i: int|
        #[trigger] pid_first(ls, n, port, token, o.pid, i) && o.name@ == ls[i].process.name@ && o.path@
            == ls[i].process.path@
}

/// `owners` lists each process of the row exactly once.
pub open spec fn owners_cover(
    ls: Seq<PortListener>,
    n: int,
    port: u16,
    token: Seq<char>,
    owners: Seq<PortOwner>,
) -> bool {
    &&& forall|k: int| 0 <= k < owners.len() ==> owner_from(ls, n, port, token, #[trigger] owners[k])
    &&& forall|i: int|
        0 <= i < n && #[trigger] in_group(ls[i], port, token) ==> exists|k: int|
            0 <= k < owners.len() && (#[trigger] owners[k]).pid == ls[i].process.pid
    &&& forall|a: int, b: int|
        0 <= a < owners.len() && 0 <= b < owners.len() && a != b ==> (#[trigger] owners[a]).pid
            != (#[trigger] owners[b]).pid
}

/// Owners in increasing pid order.
pub open spec fn sorted_by_pid(owners: Seq<PortOwner>) -> bool {
    forall|a: int, b: int| 0 <= a < b < owners.len() ==> (#[trigger] owners[a]).pid < (#[trigger] owners[b]).pid
}

/// The primary owner's pid, as text (`none` without owners).
pub open spec fn primary_text(owners: Seq<PortOwner>) -> Seq<char> {
    if owners.len() > 0 {
        decimal(owners[0].pid as nat)
    } else {
        "none"@
    }
}

/// The stable key of a row.
pub open spec fn row_key(token: Seq<char>, port: u16, owners: Seq<PortOwner>) -> Seq<char> {
    "tcp|"@ + token + "|"@ + decimal(port as nat) + "|"@ + primary_text(owners)
}

/// The scope text of a row, from its scope and specific address.
pub open spec fn scope_text(scope: BindScope, specific: Option<Seq<char>>) -> Seq<char> {
    match scope {
        BindScope::AllInterfaces => "*"@,
        BindScope::Loopback => "loopback"@,
        BindScope::Specific => match specific {
            Some(s) => s,
            None => Seq::empty(),
        },
    }
}

/// The scope text of a row.
pub open spec fn row_token(r: PortRow) -> Seq<char> {
    scope_text(r.scope, opt_text(r.specific_addr))
}

/// `r` is the row of some `(port, scope)` present in `ls`, built as the
/// normalization describes.
pub open spec fn row_of_group(ls: Seq<PortListener>, r: PortRow) -> bool {
    let token = row_token(r);
    let n = ls.len() as int;
    &&& r.protocol == Protocol::Tcp
    &&& exists|i: int|
        #[trigger] group_first(ls, n, r.port, token, i) && r.scope == scope_of(ls[i].socket.ip)
            && opt_text(r.specific_addr) == specific_of(ls[i].socket.ip)
    &&& r.families@ == families_of(ls, n, r.port, token)
    &&& owners_cover(ls, n, r.port, token, r.owners@)
    &&& sorted_by_pid(r.owners@)
    &&& r.key@ == row_key(token, r.port, r.owners@)
}

/// `rows` is the normalization of `ls`: one row per port and scope present,
/// each built from its listeners, in strictly increasing key order.
#[verifier::opaque]
pub open spec fn normalized(ls: Seq<PortListener>, rows: Seq<PortRow>) -> bool {
    &&& forall|k: int| 0 <= k < rows.len() ==> row_of_group(ls, #[trigger] rows[k])
    &&& forall|i: int|
        0 <= i < ls.len() ==> exists|k: int|
            0 <= k < rows.len() && (#[trigger] rows[k]).port == (#[trigger] ls[i]).socket.port && row_token(
                rows[k],
            ) == token_of(ls[i].socket.ip)
    &&& forall|a: int, b: int| 0 <= a < b < rows.len() ==> text_lt((#[trigger] rows[a]).key@, (#[trigger] rows[b]).key@)
}

/// Rows under construction.
struct Group {
    port: u16,
    scope: BindScope,
    specific_addr: Option<String>,
    token: String,
    has_v4: bool,
    has_v6: bool,
    owners: Vec<PortOwner>,
    first: Ghost<int>,
}

#[verifier::opaque]
spec fn group_inv(ls: Seq<PortListener>, n: int, g: Group) -> bool {
    let token = g.token@;
    &&& group_first(ls, n, g.port, token, g.first@)
    &&& g.scope == scope_of(ls[g.first@].socket.ip)
    &&& opt_text(g.specific_addr) == specific_of(ls[g.first@].socket.ip)
    &&& g.has_v4 == group_has_family(ls, n, g.port, token, AddressFamily::V4)
    &&& g.has_v6 == group_has_family(ls, n, g.port, token, AddressFamily::V6)
    &&& owners_cover(ls, n, g.port, token, g.owners@)
}

#[verifier::opaque]
spec fn groups_inv(ls: Seq<PortListener>, n: int, groups: Seq<Group>) -> bool {
    &&& forall|k: int| 0 <= k < groups.len() ==> group_inv(ls, n, #[trigger] groups[k])
    &&& forall|a: int, b: int|
        0 <= a < groups.len() && 0 <= b < groups.len() && a != b ==> !((#[trigger] groups[a]).port
            == (#[trigger] groups[b]).port && groups[a].token@ == groups[b].token@)
    &&& forall|i: int|
        0 <= i < n ==> exists|k: int|
            0 <= k < groups.len() && (#[trigger] groups[k]).port == (#[trigger] ls[i]).socket.port
                && groups[k].token@ == token_of(ls[i].socket.ip)
}

/// Classifies a socket's address: its scope, scope text and specific address.
fn classify(socket: &SocketAddress) -> (r: (BindScope, String, Option<String>))
    ensures
        r.0 == scope_of(socket.ip),
        r.1@ == token_of(socket.ip),
        opt_text(r.2) == specific_of(socket.ip),
{
    if ip_is_unspecified(&socket.ip) {
        (BindScope::AllInterfaces, String::from_str("*"), None)
    } else if ip_is_loopback(&socket.ip) {
        (BindScope::Loopback, String::from_str("loopback"), None)
    } else {
        let addr = ip_to_text(&socket.ip);
        let copy = addr.clone();
        (BindScope::Specific, addr, Some(copy))
    }
}

/// The scope text of a row.
fn scope_token(scope: BindScope, specific: Option<&str>) -> (token: String)
    ensures
        token@ == scope_text(
            scope,
            match specific {
                Some(s) => Some(s@),
                None => None,
            },
        ),
{
    match scope {
        BindScope::AllInterfaces => String::from_str("*"),
        BindScope::Loopback => String::from_str("loopback"),
        BindScope::Specific => match specific {
            Some(s) => String::from_str(s),
            None => String::new(),
        },
    }
}

fn copy_owner(o: &PortOwner) -> (r: PortOwner)
    ensures
        r == *o,
{
    PortOwner { pid: o.pid, name: o.name.clone(), path: o.path.clone() }
}

proof fn lemma_owner_from_witness(ls: Seq<PortListener>, n: int, port: u16, token: Seq<char>, o: PortOwner, i: int)
    requires
        pid_first(ls, n, port, token, o.pid, i),
        o.name@ == ls[i].process.name@,
        o.path@ == ls[i].process.path@,
    ensures
        owner_from(ls, n, port, token, o),
{
}

proof fn lemma_owner_from_grows(ls: Seq<PortListener>, n: int, port: u16, token: Seq<char>, o: PortOwner)
    requires
        owner_from(ls, n, port, token, o),
        n < ls.len(),
    ensures
        owner_from(ls, n + 1, port, token, o),
{
    let i = choose|i: int| #[trigger] pid_first(ls, n, port, token, o.pid, i) && o.name@ == ls[i].process.name@
        && o.path@ == ls[i].process.path@;
    assert(pid_first(ls, n + 1, port, token, o.pid, i));
}

proof fn lemma_first_grows(ls: Seq<PortListener>, n: int, port: u16, token: Seq<char>, i: int)
    requires
        group_first(ls, n, port, token, i),
        n < ls.len(),
    ensures
        group_first(ls, n + 1, port, token, i),
{
}

proof fn lemma_family_grows(ls: Seq<PortListener>, n: int, port: u16, token: Seq<char>, f: AddressFamily)
    requires
        0 <= n < ls.len(),
    ensures
        group_has_family(ls, n + 1, port, token, f) == (group_has_family(ls, n, port, token, f) || (in_group(
            ls[n],
            port,
            token,
        ) && family_of(ls[n].socket.ip) == f)),
{
    if group_has_family(ls, n + 1, port, token, f) {
        let i = choose|i: int| 0 <= i < n + 1 && #[trigger] in_group(ls[i], port, token) && family_of(ls[i].socket.ip) == f;
        if i < n {
            assert(group_has_family(ls, n, port, token, f));
        }
    }
    if group_has_family(ls, n, port, token, f) {
        let i = choose|i: int| 0 <= i < n && #[trigger] in_group(ls[i], port, token) && family_of(ls[i].socket.ip) == f;
        assert(group_has_family(ls, n + 1, port, token, f));
    }
    if in_group(ls[n], port, token) && family_of(ls[n].socket.ip) == f {
        assert(group_has_family(ls, n + 1, port, token, f));
    }
}

proof fn lemma_owners_grow_outside(ls: Seq<PortListener>, n: int, port: u16, token: Seq<char>, owners: Seq<PortOwner>)
    requires
        0 <= n < ls.len(),
        owners_cover(ls, n, port, token, owners),
        !in_group(ls[n], port, token),
    ensures
        owners_cover(ls, n + 1, port, token, owners),
{
    assert forall|k: int| 0 <= k < owners.len() implies owner_from(ls, n + 1, port, token, #[trigger] owners[k]) by {
        lemma_owner_from_grows(ls, n, port, token, owners[k]);
    }
    assert forall|i: int| 0 <= i < n + 1 && #[trigger] in_group(ls[i], port, token) implies exists|k: int|
        0 <= k < owners.len() && (#[trigger] owners[k]).pid == ls[i].process.pid by {
        assert(i < n);
    }
}

proof fn lemma_owners_grow_known(ls: Seq<PortListener>, n: int, port: u16, token: Seq<char>, owners: Seq<PortOwner>, k: int)
    requires
        0 <= n < ls.len(),
        owners_cover(ls, n, port, token, owners),
        0 <= k < owners.len(),
        owners[k].pid == ls[n].process.pid,
    ensures
        owners_cover(ls, n + 1, port, token, owners),
{
    assert forall|q: int| 0 <= q < owners.len() implies owner_from(ls, n + 1, port, token, #[trigger] owners[q]) by {
        lemma_owner_from_grows(ls, n, port, token, owners[q]);
    }
    assert forall|i: int| 0 <= i < n + 1 && #[trigger] in_group(ls[i], port, token) implies exists|q: int|
        0 <= q < owners.len() && (#[trigger] owners[q]).pid == ls[i].process.pid by {
        if i == n {
            assert(owners[k].pid == ls[i].process.pid);
        }
    }
}

proof fn lemma_owners_grow_new(
    ls: Seq<PortListener>,
    n: int,
    port: u16,
    token: Seq<char>,
    owners: Seq<PortOwner>,
    o: PortOwner,
)
    requires
        0 <= n < ls.len(),
        owners_cover(ls, n, port, token, owners),
        in_group(ls[n], port, token),
        forall|q: int| 0 <= q < owners.len() ==> (#[trigger] owners[q]).pid != ls[n].process.pid,
        o.pid == ls[n].process.pid,
        o.name@ == ls[n].process.name@,
        o.path@ == ls[n].process.path@,
    ensures
        owners_cover(ls, n + 1, port, token, owners.push(o)),
{
    let grown = owners.push(o);
    let pid = o.pid;
    assert forall|j2: int| 0 <= j2 < n implies !(#[trigger] in_group(ls[j2], port, token) && ls[j2].process.pid == pid) by {
        if in_group(ls[j2], port, token) && ls[j2].process.pid == pid {
            let k2 = choose|k2: int| 0 <= k2 < owners.len() && (#[trigger] owners[k2]).pid == ls[j2].process.pid;
        }
    }
    assert(pid_first(ls, n + 1, port, token, pid, n));
    lemma_owner_from_witness(ls, n + 1, port, token, o, n);
    assert forall|q: int| 0 <= q < grown.len() implies owner_from(ls, n + 1, port, token, #[trigger] grown[q]) by {
        if q < owners.len() {
            assert(grown[q] == owners[q]);
            lemma_owner_from_grows(ls, n, port, token, owners[q]);
        } else {
            assert(grown[q] == o);
        }
    }
    assert forall|i: int| 0 <= i < n + 1 && #[trigger] in_group(ls[i], port, token) implies exists|q: int|
        0 <= q < grown.len() && (#[trigger] grown[q]).pid == ls[i].process.pid by {
        if i < n {
            let q = choose|q: int| 0 <= q < owners.len() && (#[trigger] owners[q]).pid == ls[i].process.pid;
            assert(grown[q] == owners[q]);
        } else {
            assert(grown[owners.len() as int] == o);
        }
    }
    assert forall|a: int, b: int| 0 <= a < grown.len() && 0 <= b < grown.len() && a != b implies (#[trigger] grown[a]).pid
        != (#[trigger] grown[b]).pid by {
        if a < owners.len() {
            assert(grown[a] == owners[a]);
        }
        if b < owners.len() {
            assert(grown[b] == owners[b]);
        }
    }
}

proof fn lemma_other_group_unchanged(ls: Seq<PortListener>, n: int, g: Group)
    requires
        0 <= n < ls.len(),
        group_inv(ls, n, g),
        !in_group(ls[n], g.port, g.token@),
    ensures
        group_inv(ls, n + 1, g),
{
    reveal(group_inv);
    lemma_first_grows(ls, n, g.port, g.token@, g.first@);
    lemma_family_grows(ls, n, g.port, g.token@, AddressFamily::V4);
    lemma_family_grows(ls, n, g.port, g.token@, AddressFamily::V6);
    lemma_owners_grow_outside(ls, n, g.port, g.token@, g.owners@);
}

fn find_owner(owners: &Vec<PortOwner>, pid: u32) -> (r: Option<usize>)
    ensures
        match r {
            Some(k) => k < owners@.len() && owners@[k as int].pid == pid,
            None => forall|q: int| 0 <= q < owners@.len() ==> (#[trigger] owners@[q]).pid != pid,
        },
{
    let mut k: usize = 0;
    while k < owners.len()
        invariant
            k <= owners.len(),
            forall|q: int| 0 <= q < k ==> (#[trigger] owners@[q]).pid != pid,
        decreases owners.len() - k,
    {
        if owners[k].pid == pid {
            return Some(k);
        }
        k = k + 1;
    }
    None
}

fn find_group(groups: &Vec<Group>, port: u16, token: &String) -> (r: Option<usize>)
    ensures
        match r {
            Some(j) => j < groups@.len() && groups@[j as int].port == port && groups@[j as int].token@ == token@,
            None => forall|k: int| 0 <= k < groups@.len() ==> !((#[trigger] groups@[k]).port == port && groups@[k].token@ == token@),
        },
{
    let mut j: usize = 0;
    while j < groups.len()
        invariant
            j <= groups.len(),
            forall|k: int| 0 <= k < j ==> !((#[trigger] groups@[k]).port == port && groups@[k].token@ == token@),
        decreases groups.len() - j,
    {
        if groups[j].port == port && groups[j].token == *token {
            return Some(j);
        }
        j = j + 1;
    }
    None
}

proof fn lemma_groups_after_update(ls: Seq<PortListener>, n: int, old_groups: Seq<Group>, gs: Seq<Group>, j: int)
    requires
        0 <= n < ls.len(),
        groups_inv(ls, n, old_groups),
        0 <= j < old_groups.len(),
        gs.len() == old_groups.len(),
        forall|q: int| 0 <= q < gs.len() && q != j ==> gs[q] == old_groups[q],
        gs[j].port == old_groups[j].port,
        gs[j].token@ == old_groups[j].token@,
        group_inv(ls, n + 1, gs[j]),
        in_group(ls[n], gs[j].port, gs[j].token@),
    ensures
        groups_inv(ls, n + 1, gs),
{
    reveal(groups_inv);
    assert forall|q: int| 0 <= q < gs.len() implies group_inv(ls, n + 1, #[trigger] gs[q]) by {
        if q != j {
            assert(gs[q] == old_groups[q]);
            assert(group_inv(ls, n, old_groups[q]));
            if in_group(ls[n], gs[q].port, gs[q].token@) {
                assert(old_groups[j].port == old_groups[q].port && old_groups[j].token@ == old_groups[q].token@);
            }
            lemma_other_group_unchanged(ls, n, gs[q]);
        }
    }
    assert forall|a: int, b: int| 0 <= a < gs.len() && 0 <= b < gs.len() && a != b implies !((#[trigger] gs[a]).port
        == (#[trigger] gs[b]).port && gs[a].token@ == gs[b].token@) by {
        assert(gs[a].port == old_groups[a].port && gs[a].token@ == old_groups[a].token@);
        assert(gs[b].port == old_groups[b].port && gs[b].token@ == old_groups[b].token@);
    }
    assert forall|i: int| 0 <= i < n + 1 implies exists|q: int|
        0 <= q < gs.len() && (#[trigger] gs[q]).port == (#[trigger] ls[i]).socket.port
            && gs[q].token@ == token_of(ls[i].socket.ip) by {
        if i < n {
            let q = choose|q: int| 0 <= q < old_groups.len() && (#[trigger] old_groups[q]).port == (#[trigger] ls[i]).socket.port
                && old_groups[q].token@ == token_of(ls[i].socket.ip);
            assert(gs[q].port == old_groups[q].port && gs[q].token@ == old_groups[q].token@);
        } else {
            assert(gs[j].port == ls[i].socket.port);
        }
    }
}

proof fn lemma_groups_after_push(ls: Seq<PortListener>, n: int, old_groups: Seq<Group>, g: Group)
    requires
        0 <= n < ls.len(),
        groups_inv(ls, n, old_groups),
        forall|k: int| 0 <= k < old_groups.len() ==> !((#[trigger] old_groups[k]).port == g.port && old_groups[k].token@ == g.token@),
        group_inv(ls, n + 1, g),
        in_group(ls[n], g.port, g.token@),
    ensures
        groups_inv(ls, n + 1, old_groups.push(g)),
{
    reveal(groups_inv);
    let gs = old_groups.push(g);
    assert forall|q: int| 0 <= q < gs.len() implies group_inv(ls, n + 1, #[trigger] gs[q]) by {
        if q < old_groups.len() {
            assert(gs[q] == old_groups[q]);
            assert(group_inv(ls, n, old_groups[q]));
            lemma_other_group_unchanged(ls, n, gs[q]);
        } else {
            assert(gs[q] == g);
        }
    }
    assert forall|a: int, b: int| 0 <= a < gs.len() && 0 <= b < gs.len() && a != b implies !((#[trigger] gs[a]).port
        == (#[trigger] gs[b]).port && gs[a].token@ == gs[b].token@) by {
        if a < old_groups.len() {
            assert(gs[a] == old_groups[a]);
        }
        if b < old_groups.len() {
            assert(gs[b] == old_groups[b]);
        }
    }
    assert forall|i: int| 0 <= i < n + 1 implies exists|q: int|
        0 <= q < gs.len() && (#[trigger] gs[q]).port == (#[trigger] ls[i]).socket.port
            && gs[q].token@ == token_of(ls[i].socket.ip) by {
        if i < n {
            let q = choose|q: int| 0 <= q < old_groups.len() && (#[trigger] old_groups[q]).port == (#[trigger] ls[i]).socket.port
                && old_groups[q].token@ == token_of(ls[i].socket.ip);
            assert(gs[q] == old_groups[q]);
        } else {
            assert(gs[old_groups.len() as int] == g);
        }
    }
}

/// Adds listener `ls[n]` to its group `g`.
fn extend_group(Ghost(ls): Ghost<Seq<PortListener>>, n: usize, g: Group, listener: &PortListener) -> (r: Group)
    requires
        n < ls.len(),
        *listener == ls[n as int],
        group_inv(ls, n as int, g),
        in_group(ls[n as int], g.port, g.token@),
    ensures
        group_inv(ls, n + 1, r),
        r.port == g.port,
        r.token@ == g.token@,
{
    reveal(group_inv);
    let mut g = g;
    let ghost gj = g;
    let ghost token_s = g.token@;
    let pid = listener.process.pid;
    let is_v4 = match listener.socket.ip {
        IpAddress::V4(_) => true,
        IpAddress::V6(_) => false,
    };
    if is_v4 {
        g.has_v4 = true;
    } else {
        g.has_v6 = true;
    }
    proof {
        lemma_first_grows(ls, n as int, gj.port, token_s, gj.first@);
        lemma_family_grows(ls, n as int, gj.port, token_s, AddressFamily::V4);
        lemma_family_grows(ls, n as int, gj.port, token_s, AddressFamily::V6);
    }
    if let Some(k) = find_owner(&g.owners, pid) {
        proof {
            lemma_owners_grow_known(ls, n as int, gj.port, token_s, g.owners@, k as int);
        }
    } else {
        let owner = PortOwner {
            pid,
            name: listener.process.name.clone(),
            path: listener.process.path.clone(),
        };
        proof {
            lemma_owners_grow_new(ls, n as int, gj.port, token_s, g.owners@, owner);
        }
        g.owners.push(owner);
    }
    g
}

/// Starts the group of listener `ls[n]`, the first of its port and scope.
fn start_group(
    Ghost(ls): Ghost<Seq<PortListener>>,
    n: usize,
    listener: &PortListener,
    scope: BindScope,
    token: String,
    specific_addr: Option<String>,
) -> (g: Group)
    requires
        n < ls.len(),
        *listener == ls[n as int],
        scope == scope_of(listener.socket.ip),
        token@ == token_of(listener.socket.ip),
        opt_text(specific_addr) == specific_of(listener.socket.ip),
        forall|j: int| 0 <= j < n ==> !in_group(#[trigger] ls[j], listener.socket.port, token@),
    ensures
        group_inv(ls, n + 1, g),
        g.port == listener.socket.port,
        g.token@ == token@,
{
    reveal(group_inv);
    let port = listener.socket.port;
    let pid = listener.process.pid;
    let is_v4 = match listener.socket.ip {
        IpAddress::V4(_) => true,
        IpAddress::V6(_) => false,
    };
    let owner = PortOwner { pid, name: listener.process.name.clone(), path: listener.process.path.clone() };
    let ghost owner_v = owner;
    let mut owners: Vec<PortOwner> = Vec::new();
    owners.push(owner);
    let g = Group { port, scope, specific_addr, token, has_v4: is_v4, has_v6: !is_v4, owners, first: Ghost(n as int) };
    proof {
        let nn = n as int;
        let token_s = g.token@;
        assert(in_group(ls[nn], port, token_s));
        assert(group_first(ls, nn + 1, port, token_s, nn));
        lemma_family_grows(ls, nn, port, token_s, AddressFamily::V4);
        lemma_family_grows(ls, nn, port, token_s, AddressFamily::V6);
        assert(!group_has_family(ls, nn, port, token_s, AddressFamily::V4));
        assert(!group_has_family(ls, nn, port, token_s, AddressFamily::V6));
        assert(owners_cover(ls, nn, port, token_s, Seq::<PortOwner>::empty()));
        lemma_owners_grow_new(ls, nn, port, token_s, Seq::<PortOwner>::empty(), owner_v);
        assert(g.owners@ =~= Seq::<PortOwner>::empty().push(owner_v));
    }
    g
}

fn group_listeners(listeners: &Vec<PortListener>) -> (groups: Vec<Group>)
    ensures
        groups_inv(listeners@, listeners@.len() as int, groups@),
{
    let ghost ls = listeners@;
    let mut groups: Vec<Group> = Vec::new();
    let mut n: usize = 0;
    assert(groups_inv(ls, 0, groups@)) by {
        reveal(groups_inv);
    }
    while n < listeners.len()
        invariant
            n <= listeners.len(),
            ls == listeners@,
            groups_inv(ls, n as int, groups@),
        decreases listeners.len() - n,
    {
        let listener = &listeners[n];
        let (scope, token, specific_addr) = classify(&listener.socket);
        let port = listener.socket.port;
        let ghost old_groups = groups@;
        let ghost nn = n as int;
        assert(in_group(ls[nn], port, token@));
        proof {
            reveal(groups_inv);
        }
        match find_group(&groups, port, &token) {
            Some(j) => {
                let g = groups.remove(j);
                assert(old_groups[j as int] == g);
                let g = extend_group(Ghost(ls), n, g, listener);
                groups.insert(j, g);
                proof {
                    lemma_groups_after_update(ls, nn, old_groups, groups@, j as int);
                }
            },
            None => {
                proof {
                    assert forall|j2: int| 0 <= j2 < nn implies !in_group(#[trigger] ls[j2], port, token@) by {
                        if in_group(ls[j2], port, token@) {
                            let q = choose|q: int| 0 <= q < old_groups.len() && (#[trigger] old_groups[q]).port == (#[trigger] ls[j2]).socket.port
                                && old_groups[q].token@ == token_of(ls[j2].socket.ip);
                        }
                    }
                }
                let g = start_group(Ghost(ls), n, listener, scope, token, specific_addr);
                proof {
                    lemma_groups_after_push(ls, nn, old_groups, g);
                }
                groups.push(g);
            },
        }
        n = n + 1;
    }
    groups
}

proof fn lemma_token_lacks_bar(ip: IpAddress)
    ensures
        lacks(token_of(ip), '|'),
{
    reveal_strlit("*");
    reveal_strlit("loopback");
    lemma_ip_text_lacks_bar(ip);
}

proof fn lemma_scope_text_matches(ip: IpAddress)
    ensures
        scope_text(scope_of(ip), specific_of(ip)) == token_of(ip),
{
}

/// Rows of different ports or scopes have different keys.
proof fn lemma_row_key_injective(
    t1: Seq<char>,
    p1: u16,
    o1: Seq<PortOwner>,
    t2: Seq<char>,
    p2: u16,
    o2: Seq<PortOwner>,
)
    requires
        lacks(t1, '|'),
        lacks(t2, '|'),
        row_key(t1, p1, o1) == row_key(t2, p2, o2),
    ensures
        t1 == t2,
        p1 == p2,
{
    reveal_strlit("tcp|");
    reveal_strlit("|");
    let tcp = seq!['t', 'c', 'p'];
    let bar = seq!['|'];
    let d1 = decimal(p1 as nat);
    let d2 = decimal(p2 as nat);
    let r1 = t1 + bar + d1 + bar + primary_text(o1);
    let r2 = t2 + bar + d2 + bar + primary_text(o2);
    assert(row_key(t1, p1, o1) =~= tcp + bar + r1);
    assert(row_key(t2, p2, o2) =~= tcp + bar + r2);
    assert(lacks(tcp, '|'));
    lemma_split_at_separator(tcp, r1, tcp, r2, '|');
    let s1 = d1 + bar + primary_text(o1);
    let s2 = d2 + bar + primary_text(o2);
    assert(r1 =~= t1 + bar + s1);
    assert(r2 =~= t2 + bar + s2);
    lemma_split_at_separator(t1, s1, t2, s2, '|');
    lemma_decimal_lacks(p1 as nat, '|');
    lemma_decimal_lacks(p2 as nat, '|');
    lemma_split_at_separator(d1, primary_text(o1), d2, primary_text(o2), '|');
    lemma_decimal_injective(p1 as nat, p2 as nat);
}

proof fn lemma_insert_to_multiset<T>(s: Seq<T>, p: int, x: T)
    requires
        0 <= p <= s.len(),
    ensures
        s.insert(p, x).to_multiset() =~= s.to_multiset().insert(x),
{
    broadcast use vstd::seq_lib::group_to_multiset_ensures;
    let t = s.insert(p, x);
    assert(t.remove(p) =~= s);
    assert(t.contains(x)) by {
        assert(t[p] == x);
    }
    assert(t.to_multiset().remove(x) =~= s.to_multiset());
    assert(t.to_multiset().count(x) > 0);
}

proof fn lemma_multiset_contains<T>(a: Seq<T>, b: Seq<T>, x: T)
    requires
        a.to_multiset() == b.to_multiset(),
        a.contains(x),
    ensures
        b.contains(x),
{
    broadcast use vstd::seq_lib::group_to_multiset_ensures;
    assert(a.to_multiset().count(x) > 0);
    assert(b.to_multiset().count(x) > 0);
}

proof fn lemma_owners_insert_sorted(before: Seq<PortOwner>, p: int, x: PortOwner)
    requires
        sorted_by_pid(before),
        0 <= p <= before.len(),
        forall|q: int| 0 <= q < p ==> (#[trigger] before[q]).pid < x.pid,
        forall|q: int| p <= q < before.len() ==> x.pid < (#[trigger] before[q]).pid,
    ensures
        sorted_by_pid(before.insert(p, x)),
{
    let after = before.insert(p, x);
    assert forall|a: int, b: int| 0 <= a < b < after.len() implies (#[trigger] after[a]).pid < (#[trigger] after[b]).pid by {
        if b < p {
            assert(after[a] == before[a] && after[b] == before[b]);
        } else if b == p {
            assert(after[b] == x && after[a] == before[a]);
        } else if a < p {
            assert(after[a] == before[a] && after[b] == before[b - 1]);
        } else if a == p {
            assert(after[a] == x && after[b] == before[b - 1]);
        } else {
            assert(after[a] == before[a - 1] && after[b] == before[b - 1]);
        }
    }
}

/// Sorts owners by pid (their pids are distinct).
fn sort_owners(owners: &Vec<PortOwner>) -> (sorted: Vec<PortOwner>)
    requires
        forall|a: int, b: int|
            0 <= a < owners@.len() && 0 <= b < owners@.len() && a != b ==> (#[trigger] owners@[a]).pid
                != (#[trigger] owners@[b]).pid,
    ensures
        sorted_by_pid(sorted@),
        sorted@.to_multiset() == owners@.to_multiset(),
{
    broadcast use vstd::seq_lib::group_to_multiset_ensures;
    let mut sorted: Vec<PortOwner> = Vec::new();
    let mut m: usize = 0;
    proof {
        assert(owners@.take(0) =~= Seq::<PortOwner>::empty());
    }
    while m < owners.len()
        invariant
            m <= owners@.len(),
            sorted_by_pid(sorted@),
            sorted@.to_multiset() == owners@.take(m as int).to_multiset(),
            forall|a: int, b: int|
                0 <= a < owners@.len() && 0 <= b < owners@.len() && a != b ==> (#[trigger] owners@[a]).pid
                    != (#[trigger] owners@[b]).pid,
        decreases owners@.len() - m,
    {
        let x = copy_owner(&owners[m]);
        let mut p: usize = 0;
        while p < sorted.len() && sorted[p].pid < x.pid
            invariant
                p <= sorted@.len(),
                forall|q: int| 0 <= q < p ==> (#[trigger] sorted@[q]).pid < x.pid,
            decreases sorted@.len() - p,
        {
            p = p + 1;
        }
        let ghost before = sorted@;
        proof {
            assert forall|q: int| 0 <= q < before.len() implies (#[trigger] before[q]).pid != x.pid by {
                assert(before.contains(before[q]));
                let prefix = owners@.take(m as int);
                assert(before.contains(before[q]));
                lemma_multiset_contains(before, prefix, before[q]);
                let i = choose|i: int| 0 <= i < m && #[trigger] prefix[i] == before[q];
                assert(owners@[i] == before[q]);
            }
            assert forall|q: int| p <= q < before.len() implies x.pid < (#[trigger] before[q]).pid by {
                assert(before[p as int].pid >= x.pid);
                if q > p {
                    assert(before[p as int].pid < before[q].pid);
                }
            }
            lemma_owners_insert_sorted(before, p as int, x);
            lemma_insert_to_multiset(before, p as int, x);
            assert(x == owners@[m as int]);
            assert(owners@.take(m + 1) =~= owners@.take(m as int).push(x));
            vstd::seq_lib::to_multiset_build(owners@.take(m as int), x);
        }
        sorted.insert(p, x);
        m = m + 1;
    }
    proof {
        assert(owners@.take(m as int) =~= owners@);
    }
    sorted
}

proof fn lemma_sorted_owners_cover(
    ls: Seq<PortListener>,
    n: int,
    port: u16,
    token: Seq<char>,
    src: Seq<PortOwner>,
    os: Seq<PortOwner>,
)
    requires
        owners_cover(ls, n, port, token, src),
        os.to_multiset() == src.to_multiset(),
        sorted_by_pid(os),
    ensures
        owners_cover(ls, n, port, token, os),
{
    broadcast use vstd::seq_lib::group_to_multiset_ensures;
    assert forall|k: int| 0 <= k < os.len() implies owner_from(ls, n, port, token, #[trigger] os[k]) by {
        assert(os.contains(os[k]));
        lemma_multiset_contains(os, src, os[k]);
        let i = choose|i: int| 0 <= i < src.len() && #[trigger] src[i] == os[k];
        assert(owner_from(ls, n, port, token, src[i]));
    }
    assert forall|i: int| 0 <= i < n && #[trigger] in_group(ls[i], port, token) implies exists|k: int|
        0 <= k < os.len() && (#[trigger] os[k]).pid == ls[i].process.pid by {
        let q = choose|q: int| 0 <= q < src.len() && (#[trigger] src[q]).pid == ls[i].process.pid;
        assert(src.contains(src[q]));
        lemma_multiset_contains(src, os, src[q]);
        let k = choose|k: int| 0 <= k < os.len() && #[trigger] os[k] == src[q];
        assert(os[k].pid == ls[i].process.pid);
    }
    assert forall|a: int, b: int| 0 <= a < os.len() && 0 <= b < os.len() && a != b implies (#[trigger] os[a]).pid
        != (#[trigger] os[b]).pid by {
        if a < b {
            assert(os[a].pid < os[b].pid);
        } else {
            assert(os[b].pid < os[a].pid);
        }
    }
}

fn primary_string(owners: &Vec<PortOwner>) -> (text: String)
    ensures
        text@ == primary_text(owners@),
{
    if owners.len() > 0 {
        decimal_string(owners[0].pid as u64)
    } else {
        String::from_str("none")
    }
}

/// Turns a finished group into its row.
fn finish_group(Ghost(ls): Ghost<Seq<PortListener>>, g: Group) -> (r: PortRow)
    requires
        group_inv(ls, ls.len() as int, g),
    ensures
        row_of_group(ls, r),
        r.port == g.port,
        row_token(r) == g.token@,
        r.key@ == row_key(g.token@, g.port, r.owners@),
{
    proof {
        reveal(group_inv);
    }
    let ghost n = ls.len() as int;
    let ghost token = g.token@;
    let mut families: Vec<AddressFamily> = Vec::new();
    if g.has_v4 {
        families.push(AddressFamily::V4);
    }
    if g.has_v6 {
        families.push(AddressFamily::V6);
    }
    let owners = sort_owners(&g.owners);
    let token_text = scope_token(
        g.scope,
        match &g.specific_addr {
            Some(s) => Some(s.as_str()),
            None => None,
        },
    );
    proof {
        lemma_scope_text_matches(ls[g.first@].socket.ip);
        assert(token_text@ == token);
    }
    let mut key = String::from_str("tcp|");
    key.append(token_text.as_str());
    key.append("|");
    key.append(decimal_string(g.port as u64).as_str());
    key.append("|");
    key.append(primary_string(&owners).as_str());
    let r = PortRow {
        protocol: Protocol::Tcp,
        port: g.port,
        scope: g.scope,
        specific_addr: g.specific_addr,
        families,
        owners,
        key,
    };
    proof {
        assert(r.key@ =~= row_key(token, g.port, r.owners@));
        assert(r.families@ =~= families_of(ls, n, g.port, token));
        lemma_sorted_owners_cover(ls, n, g.port, token, g.owners@, r.owners@);
        assert(group_first(ls, n, r.port, row_token(r), g.first@));
    }
    r
}

/// Turns every group into its row.
fn finish_groups(Ghost(ls): Ghost<Seq<PortListener>>, groups: Vec<Group>) -> (rows: Vec<PortRow>)
    requires
        forall|k: int| 0 <= k < groups@.len() ==> group_inv(ls, ls.len() as int, #[trigger] groups@[k]),
    ensures
        rows@.len() == groups@.len(),
        forall|k: int|
            0 <= k < rows@.len() ==> row_of_group(ls, #[trigger] rows@[k]) && rows@[k].port
                == groups@[groups@.len() - 1 - k].port && row_token(rows@[k]) == groups@[groups@.len() - 1 - k].token@
                && rows@[k].key@ == row_key(groups@[groups@.len() - 1 - k].token@, rows@[k].port, rows@[k].owners@),
{
    let ghost orig = groups@;
    let ghost total = orig.len() as int;
    let mut groups = groups;
    let mut rows: Vec<PortRow> = Vec::new();
    while groups.len() > 0
        invariant
            groups@.len() + rows@.len() == total,
            groups@ == orig.take(groups@.len() as int),
            orig.len() == total,
            forall|k: int| 0 <= k < orig.len() ==> group_inv(ls, ls.len() as int, #[trigger] orig[k]),
            forall|k: int|
                0 <= k < rows@.len() ==> row_of_group(ls, #[trigger] rows@[k]) && rows@[k].port
                    == orig[total - 1 - k].port && row_token(rows@[k]) == orig[total - 1 - k].token@
                    && rows@[k].key@ == row_key(orig[total - 1 - k].token@, rows@[k].port, rows@[k].owners@),
        decreases groups@.len(),
    {
        let ghost before = groups@;
        let g = groups.pop().unwrap();
        proof {
            assert(g == orig[before.len() - 1]);
            assert(groups@ =~= orig.take(groups@.len() as int));
        }
        let row = finish_group(Ghost(ls), g);
        rows.push(row);
    }
    rows
}

proof fn lemma_group_token_lacks_bar(ls: Seq<PortListener>, g: Group)
    requires
        group_inv(ls, ls.len() as int, g),
    ensures
        lacks(g.token@, '|'),
{
    reveal(group_inv);
    lemma_token_lacks_bar(ls[g.first@].socket.ip);
}

proof fn lemma_rows_keys_distinct(ls: Seq<PortListener>, orig: Seq<Group>, rows: Seq<PortRow>)
    requires
        groups_inv(ls, ls.len() as int, orig),
        rows.len() == orig.len(),
        forall|k: int|
            0 <= k < rows.len() ==> (#[trigger] rows[k]).port == orig[orig.len() - 1 - k].port
                && rows[k].key@ == row_key(orig[orig.len() - 1 - k].token@, rows[k].port, rows[k].owners@),
    ensures
        forall|a: int, b: int|
            0 <= a < rows.len() && 0 <= b < rows.len() && a != b ==> (#[trigger] rows[a]).key@ != (#[trigger] rows[b]).key@,
{
    reveal(groups_inv);
    let total = orig.len() as int;
    assert forall|a: int, b: int| 0 <= a < rows.len() && 0 <= b < rows.len() && a != b implies
        (#[trigger] rows[a]).key@ != (#[trigger] rows[b]).key@ by {
        let ga = orig[total - 1 - a];
        let gb = orig[total - 1 - b];
        lemma_group_token_lacks_bar(ls, ga);
        lemma_group_token_lacks_bar(ls, gb);
        if rows[a].key@ == rows[b].key@ {
            lemma_row_key_injective(ga.token@, ga.port, rows[a].owners@, gb.token@, gb.port, rows[b].owners@);
        }
    }
}

proof fn lemma_rows_cover(ls: Seq<PortListener>, orig: Seq<Group>, unsorted: Seq<PortRow>, rs: Seq<PortRow>)
    requires
        groups_inv(ls, ls.len() as int, orig),
        unsorted.len() == orig.len(),
        forall|k: int|
            0 <= k < unsorted.len() ==> (#[trigger] unsorted[k]).port == orig[orig.len() - 1 - k].port
                && row_token(unsorted[k]) == orig[orig.len() - 1 - k].token@,
        rs.to_multiset() == unsorted.to_multiset(),
    ensures
        forall|i: int|
            0 <= i < ls.len() ==> exists|k: int|
                0 <= k < rs.len() && (#[trigger] rs[k]).port == (#[trigger] ls[i]).socket.port && row_token(rs[k])
                    == token_of(ls[i].socket.ip),
{
    reveal(groups_inv);
    let total = orig.len() as int;
    assert forall|i: int| 0 <= i < ls.len() implies exists|k: int|
        0 <= k < rs.len() && (#[trigger] rs[k]).port == (#[trigger] ls[i]).socket.port && row_token(rs[k])
            == token_of(ls[i].socket.ip) by {
        let q = choose|q: int| 0 <= q < orig.len() && (#[trigger] orig[q]).port == (#[trigger] ls[i]).socket.port
            && orig[q].token@ == token_of(ls[i].socket.ip);
        let u = total - 1 - q;
        assert(unsorted[u].port == orig[q].port);
        assert(unsorted.contains(unsorted[u]));
        lemma_multiset_contains(unsorted, rs, unsorted[u]);
        let k = choose|k: int| 0 <= k < rs.len() && #[trigger] rs[k] == unsorted[u];
    }
}

proof fn lemma_rows_of_groups(ls: Seq<PortListener>, unsorted: Seq<PortRow>, rs: Seq<PortRow>)
    requires
        forall|k: int| 0 <= k < unsorted.len() ==> row_of_group(ls, #[trigger] unsorted[k]),
        rs.to_multiset() == unsorted.to_multiset(),
    ensures
        forall|k: int| 0 <= k < rs.len() ==> row_of_group(ls, #[trigger] rs[k]),
{
    assert forall|k: int| 0 <= k < rs.len() implies row_of_group(ls, #[trigger] rs[k]) by {
        assert(rs.contains(rs[k]));
        lemma_multiset_contains(rs, unsorted, rs[k]);
        let i = choose|i: int| 0 <= i < unsorted.len() && #[trigger] unsorted[i] == rs[k];
    }
}

/// Normalizes raw TCP listeners into stable, deduplicated port rows: one
/// row per port and bind scope, with families and owners merged, sorted by
/// the row key.
pub fn normalize(listeners: Vec<PortListener>) -> (rows: Vec<PortRow>)
    ensures
        normalized(listeners@, rows@),
{
    let ghost ls = listeners@;
    let groups = group_listeners(&listeners);
    let ghost orig = groups@;
    proof {
        reveal(groups_inv);
    }
    let unsorted = finish_groups(Ghost(ls), groups);
    proof {
        lemma_rows_keys_distinct(ls, orig, unsorted@);
    }
    let rows = sort_rows(unsorted);
    proof {
        lemma_rows_cover(ls, orig, unsorted@, rows@);
        lemma_rows_of_groups(ls, unsorted@, rows@);
        reveal(normalized);
    }
    rows
}

proof fn lemma_rows_insert_sorted(before: Seq<PortRow>, p: int, x: PortRow)
    requires
        forall|a: int, b: int| 0 <= a < b < before.len() ==> text_lt((#[trigger] before[a]).key@, (#[trigger] before[b]).key@),
        0 <= p <= before.len(),
        forall|q: int| 0 <= q < p ==> text_lt((#[trigger] before[q]).key@, x.key@),
        forall|q: int| p <= q < before.len() ==> text_lt(x.key@, (#[trigger] before[q]).key@),
    ensures
        forall|a: int, b: int|
            0 <= a < b < before.insert(p, x).len() ==> text_lt(
                (#[trigger] before.insert(p, x)[a]).key@,
                (#[trigger] before.insert(p, x)[b]).key@,
            ),
{
    let after = before.insert(p, x);
    assert forall|a: int, b: int| 0 <= a < b < after.len() implies text_lt((#[trigger] after[a]).key@, (#[trigger] after[b]).key@) by {
        if b < p {
            assert(after[a] == before[a] && after[b] == before[b]);
        } else if b == p {
            assert(after[b] == x && after[a] == before[a]);
        } else if a < p {
            assert(after[a] == before[a] && after[b] == before[b - 1]);
            lemma_text_lt_transitive(before[a].key@, x.key@, before[b - 1].key@);
        } else if a == p {
            assert(after[a] == x && after[b] == before[b - 1]);
        } else {
            assert(after[a] == before[a - 1] && after[b] == before[b - 1]);
        }
    }
}

/// Sorts rows by key (their keys are distinct).
fn sort_rows(rows: Vec<PortRow>) -> (sorted: Vec<PortRow>)
    requires
        forall|a: int, b: int|
            0 <= a < rows@.len() && 0 <= b < rows@.len() && a != b ==> (#[trigger] rows@[a]).key@
                != (#[trigger] rows@[b]).key@,
    ensures
        forall|a: int, b: int| 0 <= a < b < sorted@.len() ==> text_lt((#[trigger] sorted@[a]).key@, (#[trigger] sorted@[b]).key@),
        sorted@.to_multiset() == rows@.to_multiset(),
{
    broadcast use vstd::seq_lib::group_to_multiset_ensures;
    let ghost orig = rows@;
    let mut rest = rows;
    let mut sorted: Vec<PortRow> = Vec::new();
    proof {
        assert(orig.skip(orig.len() as int) =~= Seq::<PortRow>::empty());
        assert(orig.take(orig.len() as int) =~= orig);
    }
    while rest.len() > 0
        invariant
            rest@ == orig.take(rest@.len() as int),
            rest@.len() <= orig.len(),
            forall|a: int, b: int|
                0 <= a < orig.len() && 0 <= b < orig.len() && a != b ==> (#[trigger] orig[a]).key@
                    != (#[trigger] orig[b]).key@,
            forall|a: int, b: int| 0 <= a < b < sorted@.len() ==> text_lt((#[trigger] sorted@[a]).key@, (#[trigger] sorted@[b]).key@),
            sorted@.to_multiset() == orig.skip(rest@.len() as int).to_multiset(),
        decreases rest@.len(),
    {
        let ghost m = rest@.len() - 1;
        let x = rest.pop().unwrap();
        proof {
            assert(x == orig[m]);
            assert(rest@ =~= orig.take(rest@.len() as int));
        }
        let mut p: usize = 0;
        while p < sorted.len() && !text_less(x.key.as_str(), sorted[p].key.as_str())
            invariant
                p <= sorted@.len(),
                forall|q: int| 0 <= q < p ==> !text_lt(x.key@, (#[trigger] sorted@[q]).key@),
            decreases sorted@.len() - p,
        {
            p = p + 1;
        }
        let ghost before = sorted@;
        proof {
            assert forall|q: int| 0 <= q < before.len() implies (#[trigger] before[q]).key@ != x.key@ by {
                assert(before.contains(before[q]));
                let tail = orig.skip(m + 1);
                assert(before.contains(before[q]));
                lemma_multiset_contains(before, tail, before[q]);
                let i = choose|i: int| 0 <= i < tail.len() && #[trigger] tail[i] == before[q];
                assert(orig[m + 1 + i] == before[q]);
            }
            assert forall|q: int| 0 <= q < p implies text_lt((#[trigger] before[q]).key@, x.key@) by {
                lemma_text_lt_total(before[q].key@, x.key@);
            }
            assert forall|q: int| p <= q < before.len() implies text_lt(x.key@, (#[trigger] before[q]).key@) by {
                if q > p {
                    lemma_text_lt_transitive(x.key@, before[p as int].key@, before[q].key@);
                }
            }
            lemma_rows_insert_sorted(before, p as int, x);
            lemma_insert_to_multiset(before, p as int, x);
            assert(orig.skip(m) =~= orig.skip(m + 1).insert(0, x));
            lemma_insert_to_multiset(orig.skip(m + 1), 0, x);
        }
        sorted.insert(p, x);
    }
    proof {
        assert(orig.skip(0) =~= orig);
    }
    sorted
}

} // verus!

verus! {

/// The key a row of `(port, token)` gets when `pid` is its lowest pid.
pub open spec fn key_text(token: Seq<char>, port: u16, pid: u32) -> Seq<char> {
    "tcp|"@ + token + "|"@ + decimal(port as nat) + "|"@ + decimal(pid as nat)
}

/// `k` is the key of a row that the listeners `ls` call for: the key of
/// some listener's port and scope, with the lowest pid among the
/// listeners of that port and scope.
pub open spec fn is_group_key(ls: Seq<PortListener>, k: Seq<char>) -> bool {
    exists|i: int|
        0 <= i < ls.len() && k == key_text(token_of((#[trigger] ls[i]).socket.ip), ls[i].socket.port, ls[i].process.pid)
            && forall|j: int|
            0 <= j < ls.len() && in_group(#[trigger] ls[j], ls[i].socket.port, token_of(ls[i].socket.ip))
                ==> ls[i].process.pid <= ls[j].process.pid
}

/// The keys of a list of rows, in order.
pub open spec fn row_keys(rows: Seq<PortRow>) -> Seq<Seq<char>> {
    rows.map_values(|r: PortRow| r.key@)
}

proof fn lemma_group_key_same_listeners(ls1: Seq<PortListener>, ls2: Seq<PortListener>, k: Seq<char>)
    requires
        forall|l: PortListener| ls1.contains(l) <==> ls2.contains(l),
        is_group_key(ls1, k),
    ensures
        is_group_key(ls2, k),
{
    let i = choose|i: int|
        0 <= i < ls1.len() && k == key_text(token_of((#[trigger] ls1[i]).socket.ip), ls1[i].socket.port, ls1[i].process.pid)
            && forall|j: int|
            0 <= j < ls1.len() && in_group(#[trigger] ls1[j], ls1[i].socket.port, token_of(ls1[i].socket.ip))
                ==> ls1[i].process.pid <= ls1[j].process.pid;
    let l = ls1[i];
    assert(ls1.contains(l));
    let i2 = choose|i2: int| 0 <= i2 < ls2.len() && ls2[i2] == l;
    assert forall|j: int|
        0 <= j < ls2.len() && in_group(#[trigger] ls2[j], ls2[i2].socket.port, token_of(ls2[i2].socket.ip)) implies ls2[i2].process.pid
        <= ls2[j].process.pid by {
        assert(ls2.contains(ls2[j]));
        let j1 = choose|j1: int| 0 <= j1 < ls1.len() && ls1[j1] == ls2[j];
        assert(in_group(ls1[j1], ls1[i].socket.port, token_of(ls1[i].socket.ip)));
    }
    assert(k == key_text(token_of(ls2[i2].socket.ip), ls2[i2].socket.port, ls2[i2].process.pid));
}

/// A row's key is the key of its port and scope with the lowest pid.
proof fn lemma_row_key_is_group_key(ls: Seq<PortListener>, r: PortRow)
    requires
        row_of_group(ls, r),
    ensures
        r.owners@.len() > 0,
        is_group_key(ls, r.key@),
        forall|j: int|
            0 <= j < ls.len() && in_group(#[trigger] ls[j], r.port, row_token(r)) ==> r.owners@[0].pid
                <= ls[j].process.pid,
        exists|m: int|
            0 <= m < ls.len() && in_group(#[trigger] ls[m], r.port, row_token(r)) && ls[m].process.pid
                == r.owners@[0].pid,
{
    let n = ls.len() as int;
    let token = row_token(r);
    let i0 = choose|i: int|
        #[trigger] group_first(ls, n, r.port, token, i) && r.scope == scope_of(ls[i].socket.ip) && opt_text(
            r.specific_addr,
        ) == specific_of(ls[i].socket.ip);
    assert(in_group(ls[i0], r.port, token));
    let k0 = choose|k: int| 0 <= k < r.owners@.len() && (#[trigger] r.owners@[k]).pid == ls[i0].process.pid;
    assert(r.owners@.len() > 0);
    let o = r.owners@[0];
    assert(owner_from(ls, n, r.port, token, o));
    let m = choose|m: int|
        #[trigger] pid_first(ls, n, r.port, token, o.pid, m) && o.name@ == ls[m].process.name@ && o.path@
            == ls[m].process.path@;
    assert forall|j: int|
        0 <= j < ls.len() && in_group(#[trigger] ls[j], r.port, token) implies o.pid <= ls[j].process.pid by {
        let kj = choose|k: int| 0 <= k < r.owners@.len() && (#[trigger] r.owners@[k]).pid == ls[j].process.pid;
        if kj > 0 {
            assert(r.owners@[0].pid < r.owners@[kj].pid);
        }
    }
    assert(in_group(ls[m], r.port, token));
    assert(token_of(ls[m].socket.ip) == token);
    reveal_strlit("none");
    assert(primary_text(r.owners@) == decimal(o.pid as nat));
    assert(r.key@ =~= key_text(token_of(ls[m].socket.ip), ls[m].socket.port, ls[m].process.pid));
    assert forall|j: int|
        0 <= j < ls.len() && in_group(#[trigger] ls[j], ls[m].socket.port, token_of(ls[m].socket.ip)) implies ls[m].process.pid
        <= ls[j].process.pid by {
    }
}

/// The row of a listener's port and scope has the key of the lowest pid.
proof fn lemma_row_key_of_lowest(ls: Seq<PortListener>, r: PortRow, i: int)
    requires
        row_of_group(ls, r),
        0 <= i < ls.len(),
        r.port == ls[i].socket.port,
        row_token(r) == token_of(ls[i].socket.ip),
        forall|j: int|
            0 <= j < ls.len() && in_group(#[trigger] ls[j], ls[i].socket.port, token_of(ls[i].socket.ip))
                ==> ls[i].process.pid <= ls[j].process.pid,
    ensures
        r.key@ == key_text(token_of(ls[i].socket.ip), ls[i].socket.port, ls[i].process.pid),
{
    lemma_row_key_is_group_key(ls, r);
    assert(in_group(ls[i], r.port, row_token(r)));
    let m = choose|m: int|
        0 <= m < ls.len() && in_group(#[trigger] ls[m], r.port, row_token(r)) && ls[m].process.pid == r.owners@[0].pid;
    assert(r.owners@[0].pid <= ls[i].process.pid);
    assert(ls[i].process.pid <= ls[m].process.pid);
    reveal_strlit("none");
    assert(primary_text(r.owners@) == decimal(ls[i].process.pid as nat));
    assert(r.key@ =~= key_text(token_of(ls[i].socket.ip), ls[i].socket.port, ls[i].process.pid));
}

/// Every row is the row of a port and scope present.
#[verifier::opaque]
spec fn rows_of(ls: Seq<PortListener>, rows: Seq<PortRow>) -> bool {
    forall|a: int| 0 <= a < rows.len() ==> row_of_group(ls, #[trigger] rows[a])
}

/// Every listener's port and scope has a row.
#[verifier::opaque]
spec fn covers(ls: Seq<PortListener>, rows: Seq<PortRow>) -> bool {
    forall|i: int|
        0 <= i < ls.len() ==> exists|a: int|
            0 <= a < rows.len() && (#[trigger] rows[a]).port == (#[trigger] ls[i]).socket.port && row_token(rows[a])
                == token_of(ls[i].socket.ip)
}

proof fn lemma_normalized_parts(ls: Seq<PortListener>, rows: Seq<PortRow>)
    requires
        normalized(ls, rows),
    ensures
        rows_of(ls, rows),
        covers(ls, rows),
        forall|a: int, b: int| 0 <= a < b < rows.len() ==> text_lt((#[trigger] rows[a]).key@, (#[trigger] rows[b]).key@),
{
    reveal(normalized);
    reveal(rows_of);
    reveal(covers);
}

proof fn lemma_keys_forward(ls: Seq<PortListener>, rows: Seq<PortRow>, k: Seq<char>)
    requires
        rows_of(ls, rows),
        row_keys(rows).contains(k),
    ensures
        is_group_key(ls, k),
{
    let a = choose|a: int| 0 <= a < row_keys(rows).len() && row_keys(rows)[a] == k;
    assert(row_of_group(ls, rows[a])) by {
        reveal(rows_of);
    }
    lemma_row_key_is_group_key(ls, rows[a]);
}

proof fn lemma_keys_backward(ls: Seq<PortListener>, rows: Seq<PortRow>, k: Seq<char>)
    requires
        rows_of(ls, rows),
        covers(ls, rows),
        is_group_key(ls, k),
    ensures
        row_keys(rows).contains(k),
{
    let i = choose|i: int|
        0 <= i < ls.len() && k == key_text(token_of((#[trigger] ls[i]).socket.ip), ls[i].socket.port, ls[i].process.pid)
            && forall|j: int|
            0 <= j < ls.len() && in_group(#[trigger] ls[j], ls[i].socket.port, token_of(ls[i].socket.ip))
                ==> ls[i].process.pid <= ls[j].process.pid;
    assert(exists|a: int|
        0 <= a < rows.len() && (#[trigger] rows[a]).port == ls[i].socket.port && row_token(rows[a]) == token_of(
            ls[i].socket.ip,
        )) by {
        reveal(covers);
        assert(0 <= i < ls.len());
        let l = ls[i];
    }
    let a = choose|a: int|
        0 <= a < rows.len() && (#[trigger] rows[a]).port == ls[i].socket.port && row_token(rows[a]) == token_of(
            ls[i].socket.ip,
        );
    assert(row_of_group(ls, rows[a])) by {
        reveal(rows_of);
    }
    lemma_row_key_of_lowest(ls, rows[a], i);
    assert(row_keys(rows)[a] == k);
}

/// The keys of a normalization are exactly the group keys of its input.
proof fn lemma_keys_are_group_keys(ls: Seq<PortListener>, rows: Seq<PortRow>, k: Seq<char>)
    requires
        rows_of(ls, rows),
        covers(ls, rows),
    ensures
        row_keys(rows).contains(k) <==> is_group_key(ls, k),
{
    if row_keys(rows).contains(k) {
        lemma_keys_forward(ls, rows, k);
    }
    if is_group_key(ls, k) {
        lemma_keys_backward(ls, rows, k);
    }
}

/// Two strictly increasing sequences of texts with the same elements are equal.
proof fn lemma_sorted_texts_unique(a: Seq<Seq<char>>, b: Seq<Seq<char>>)
    requires
        forall|i: int, j: int| 0 <= i < j < a.len() ==> text_lt(#[trigger] a[i], #[trigger] a[j]),
        forall|i: int, j: int| 0 <= i < j < b.len() ==> text_lt(#[trigger] b[i], #[trigger] b[j]),
        forall|x: Seq<char>| a.contains(x) <==> b.contains(x),
    ensures
        a == b,
    decreases a.len(),
{
    if a.len() == 0 {
        if b.len() > 0 {
            assert(b.contains(b[0]));
        }
        assert(a =~= b);
    } else {
        assert(a.contains(a[0]));
        let j = choose|j: int| 0 <= j < b.len() && b[j] == a[0];
        assert(b.contains(b[0]));
        let i = choose|i: int| 0 <= i < a.len() && a[i] == b[0];
        if j > 0 {
            assert(text_lt(b[0], b[j]));
            if i > 0 {
                assert(text_lt(a[0], a[i]));
                lemma_text_lt_asymmetric(a[0], a[i]);
            } else {
                lemma_text_lt_irreflexive(a[0]);
            }
        }
        assert(b[0] == a[0]);
        let ar = a.drop_first();
        let br = b.drop_first();
        assert forall|x: Seq<char>| ar.contains(x) <==> br.contains(x) by {
            if ar.contains(x) {
                let p = choose|p: int| 0 <= p < ar.len() && ar[p] == x;
                assert(a[p + 1] == x);
                assert(text_lt(a[0], a[p + 1]));
                assert(a.contains(x));
                let q = choose|q: int| 0 <= q < b.len() && b[q] == x;
                if q == 0 {
                    lemma_text_lt_irreflexive(x);
                }
                assert(br[q - 1] == x);
            }
            if br.contains(x) {
                let p = choose|p: int| 0 <= p < br.len() && br[p] == x;
                assert(b[p + 1] == x);
                assert(text_lt(b[0], b[p + 1]));
                assert(b.contains(x));
                let q = choose|q: int| 0 <= q < a.len() && a[q] == x;
                if q == 0 {
                    lemma_text_lt_irreflexive(x);
                }
                assert(ar[q - 1] == x);
            }
        }
        assert forall|i2: int, j2: int| 0 <= i2 < j2 < ar.len() implies text_lt(#[trigger] ar[i2], #[trigger] ar[j2]) by {
            assert(text_lt(a[i2 + 1], a[j2 + 1]));
        }
        assert forall|i2: int, j2: int| 0 <= i2 < j2 < br.len() implies text_lt(#[trigger] br[i2], #[trigger] br[j2]) by {
            assert(text_lt(b[i2 + 1], b[j2 + 1]));
        }
        lemma_sorted_texts_unique(ar, br);
        assert(a =~= seq![a[0]] + ar);
        assert(b =~= seq![b[0]] + br);
    }
}

proof fn lemma_same_key(ls1: Seq<PortListener>, ls2: Seq<PortListener>, rows1: Seq<PortRow>, rows2: Seq<PortRow>, x: Seq<char>)
    requires
        forall|l: PortListener| ls1.contains(l) <==> ls2.contains(l),
        rows_of(ls1, rows1),
        covers(ls1, rows1),
        rows_of(ls2, rows2),
        covers(ls2, rows2),
    ensures
        row_keys(rows1).contains(x) <==> row_keys(rows2).contains(x),
{
    lemma_keys_are_group_keys(ls1, rows1, x);
    lemma_keys_are_group_keys(ls2, rows2, x);
    if is_group_key(ls1, x) {
        lemma_group_key_same_listeners(ls1, ls2, x);
    }
    if is_group_key(ls2, x) {
        lemma_group_key_same_listeners(ls2, ls1, x);
    }
}

/// Law: the row keys, and their order, depend only on which listeners a
/// scan reported, not on the order it reported them in (nor on repeats).
pub proof fn law_keys_ignore_scan_order(
    ls1: Seq<PortListener>,
    ls2: Seq<PortListener>,
    rows1: Seq<PortRow>,
    rows2: Seq<PortRow>,
)
    requires
        forall|l: PortListener| ls1.contains(l) <==> ls2.contains(l),
        normalized(ls1, rows1),
        normalized(ls2, rows2),
    ensures
        row_keys(rows1) == row_keys(rows2),
        rows1.len() == rows2.len(),
{
    lemma_normalized_parts(ls1, rows1);
    lemma_normalized_parts(ls2, rows2);
    let k1 = row_keys(rows1);
    let k2 = row_keys(rows2);
    assert forall|x: Seq<char>| k1.contains(x) <==> k2.contains(x) by {
        lemma_same_key(ls1, ls2, rows1, rows2, x);
    }
    assert forall|i: int, j: int| 0 <= i < j < k1.len() implies text_lt(#[trigger] k1[i], #[trigger] k1[j]) by {
        assert(text_lt(rows1[i].key@, rows1[j].key@));
    }
    assert forall|i: int, j: int| 0 <= i < j < k2.len() implies text_lt(#[trigger] k2[i], #[trigger] k2[j]) by {
        assert(text_lt(rows2[i].key@, rows2[j].key@));
    }
    lemma_sorted_texts_unique(k1, k2);
}

/// An owner as seen: its pid, name and path.
pub open spec fn owner_view(o: PortOwner) -> (u32, Seq<char>, Seq<char>) {
    (o.pid, o.name@, o.path@)
}

/// A row as seen: every field, texts as character sequences.
pub open spec fn row_view(r: PortRow) -> (
    Protocol,
    u16,
    BindScope,
    Option<Seq<char>>,
    Seq<AddressFamily>,
    Seq<(u32, Seq<char>, Seq<char>)>,
    Seq<char>,
) {
    (
        r.protocol,
        r.port,
        r.scope,
        opt_text(r.specific_addr),
        r.families@,
        r.owners@.map_values(|o: PortOwner| owner_view(o)),
        r.key@,
    )
}

/// Listeners with the same pid name their process the same way.
pub open spec fn consistent_owners(ls: Seq<PortListener>) -> bool {
    forall|i: int, j: int|
        0 <= i < ls.len() && 0 <= j < ls.len() && (#[trigger] ls[i]).process.pid == (#[trigger] ls[j]).process.pid
            ==> ls[i].process.name@ == ls[j].process.name@ && ls[i].process.path@ == ls[j].process.path@
}

/// Addresses with the same scope text have the same scope and specific
/// address (no address text reads `*` or `loopback`).
proof fn lemma_token_fixes_scope(a: IpAddress, b: IpAddress)
    requires
        token_of(a) == token_of(b),
    ensures
        scope_of(a) == scope_of(b),
        specific_of(a) == specific_of(b),
{
    reveal_strlit("*");
    reveal_strlit("loopback");
    lemma_ip_text_lacks(a, '*');
    lemma_ip_text_lacks(b, '*');
    lemma_ip_text_lacks(a, 'l');
    lemma_ip_text_lacks(b, 'l');
    let star = "*"@;
    let lo = "loopback"@;
    assert(star.len() == 1 && star[0] == '*');
    assert(lo.len() == 8 && lo[0] == 'l');
    assert(star != lo);
    lemma_token_not_address(a, b);
    lemma_token_not_address(b, a);
}

proof fn lemma_token_not_address(a: IpAddress, b: IpAddress)
    requires
        token_of(a) == token_of(b),
        lacks(ip_text(b), '*'),
        lacks(ip_text(b), 'l'),
    ensures
        (is_unspecified(a) || is_loopback(a)) ==> (is_unspecified(b) || is_loopback(b)),
{
    reveal_strlit("*");
    reveal_strlit("loopback");
    if (is_unspecified(a) || is_loopback(a)) && !(is_unspecified(b) || is_loopback(b)) {
        assert(token_of(b) == ip_text(b));
        if is_unspecified(a) {
            assert(token_of(a) == "*"@);
            assert(ip_text(b)[0] == '*');
        } else {
            assert(token_of(a) == "loopback"@);
            assert(ip_text(b)[0] == 'l');
        }
    }
}

proof fn lemma_same_families(ls1: Seq<PortListener>, ls2: Seq<PortListener>, port: u16, token: Seq<char>)
    requires
        forall|l: PortListener| ls1.contains(l) <==> ls2.contains(l),
    ensures
        families_of(ls1, ls1.len() as int, port, token) == families_of(ls2, ls2.len() as int, port, token),
{
    let n1 = ls1.len() as int;
    let n2 = ls2.len() as int;
    assert forall|f: AddressFamily|
        group_has_family(ls1, n1, port, token, f) <==> group_has_family(ls2, n2, port, token, f) by {
        if group_has_family(ls1, n1, port, token, f) {
            let i = choose|i: int| 0 <= i < n1 && #[trigger] in_group(ls1[i], port, token) && family_of(ls1[i].socket.ip) == f;
            assert(ls1.contains(ls1[i]));
            let j = choose|j: int| 0 <= j < ls2.len() && ls2[j] == ls1[i];
            assert(in_group(ls2[j], port, token));
        }
        if group_has_family(ls2, n2, port, token, f) {
            let i = choose|i: int| 0 <= i < n2 && #[trigger] in_group(ls2[i], port, token) && family_of(ls2[i].socket.ip) == f;
            assert(ls2.contains(ls2[i]));
            let j = choose|j: int| 0 <= j < ls1.len() && ls1[j] == ls2[i];
            assert(in_group(ls1[j], port, token));
        }
    }
    assert(group_has_family(ls1, n1, port, token, AddressFamily::V4) == group_has_family(ls2, n2, port, token, AddressFamily::V4));
    assert(group_has_family(ls1, n1, port, token, AddressFamily::V6) == group_has_family(ls2, n2, port, token, AddressFamily::V6));
}

/// Two strictly increasing sequences of pids with the same elements are equal.
proof fn lemma_sorted_pids_unique(a: Seq<u32>, b: Seq<u32>)
    requires
        forall|i: int, j: int| 0 <= i < j < a.len() ==> #[trigger] a[i] < #[trigger] a[j],
        forall|i: int, j: int| 0 <= i < j < b.len() ==> #[trigger] b[i] < #[trigger] b[j],
        forall|x: u32| a.contains(x) <==> b.contains(x),
    ensures
        a == b,
    decreases a.len(),
{
    if a.len() == 0 {
        if b.len() > 0 {
            assert(b.contains(b[0]));
        }
        assert(a =~= b);
    } else if b.len() == 0 {
        assert(a.contains(a[0]));
    } else {
        assert(a.contains(a[0]));
        assert(b.contains(b[0]));
        let p = choose|p: int| 0 <= p < a.len() && a[p] == b[0];
        let q = choose|q: int| 0 <= q < b.len() && b[q] == a[0];
        if p > 0 {
            assert(a[0] < a[p]);
        }
        if q > 0 {
            assert(b[0] < b[q]);
        }
        assert(a[0] == b[0]);
        let ar = a.drop_first();
        let br = b.drop_first();
        assert forall|x: u32| ar.contains(x) <==> br.contains(x) by {
            if ar.contains(x) {
                let i = choose|i: int| 0 <= i < ar.len() && ar[i] == x;
                assert(a[i + 1] == x);
                assert(a[0] < a[i + 1]);
                assert(a.contains(x));
                let j = choose|j: int| 0 <= j < b.len() && b[j] == x;
                assert(j != 0);
                assert(br[j - 1] == x);
            }
            if br.contains(x) {
                let i = choose|i: int| 0 <= i < br.len() && br[i] == x;
                assert(b[i + 1] == x);
                assert(b[0] < b[i + 1]);
                assert(b.contains(x));
                let j = choose|j: int| 0 <= j < a.len() && a[j] == x;
                assert(j != 0);
                assert(ar[j - 1] == x);
            }
        }
        assert forall|i: int, j: int| 0 <= i < j < ar.len() implies #[trigger] ar[i] < #[trigger] ar[j] by {
            assert(a[i + 1] < a[j + 1]);
        }
        assert forall|i: int, j: int| 0 <= i < j < br.len() implies #[trigger] br[i] < #[trigger] br[j] by {
            assert(b[i + 1] < b[j + 1]);
        }
        lemma_sorted_pids_unique(ar, br);
        assert(a =~= seq![a[0]] + ar);
        assert(b =~= seq![b[0]] + br);
    }
}

/// An owner of a row is the pid of one of the row's listeners, and every
/// listener's pid is an owner.
proof fn lemma_owner_pid_present(
    ls1: Seq<PortListener>,
    ls2: Seq<PortListener>,
    port: u16,
    token: Seq<char>,
    o1: Seq<PortOwner>,
    o2: Seq<PortOwner>,
    k: int,
) -> (k2: int)
    requires
        forall|l: PortListener| ls1.contains(l) <==> ls2.contains(l),
        owners_cover(ls1, ls1.len() as int, port, token, o1),
        owners_cover(ls2, ls2.len() as int, port, token, o2),
        0 <= k < o1.len(),
    ensures
        0 <= k2 < o2.len(),
        o2[k2].pid == o1[k].pid,
{
    let n1 = ls1.len() as int;
    assert(owner_from(ls1, n1, port, token, o1[k]));
    let i = choose|i: int| #[trigger] pid_first(ls1, n1, port, token, o1[k].pid, i) && o1[k].name@ == ls1[i].process.name@
        && o1[k].path@ == ls1[i].process.path@;
    assert(ls1.contains(ls1[i]));
    let j = choose|j: int| 0 <= j < ls2.len() && ls2[j] == ls1[i];
    assert(in_group(ls2[j], port, token));
    choose|k2: int| 0 <= k2 < o2.len() && (#[trigger] o2[k2]).pid == ls2[j].process.pid
}

proof fn lemma_same_owners(
    ls1: Seq<PortListener>,
    ls2: Seq<PortListener>,
    port: u16,
    token: Seq<char>,
    o1: Seq<PortOwner>,
    o2: Seq<PortOwner>,
)
    requires
        forall|l: PortListener| ls1.contains(l) <==> ls2.contains(l),
        consistent_owners(ls1),
        owners_cover(ls1, ls1.len() as int, port, token, o1),
        owners_cover(ls2, ls2.len() as int, port, token, o2),
        sorted_by_pid(o1),
        sorted_by_pid(o2),
    ensures
        o1.map_values(|o: PortOwner| owner_view(o)) == o2.map_values(|o: PortOwner| owner_view(o)),
{
    let n1 = ls1.len() as int;
    let n2 = ls2.len() as int;
    let p1 = o1.map_values(|o: PortOwner| o.pid);
    let p2 = o2.map_values(|o: PortOwner| o.pid);
    assert forall|x: u32| p1.contains(x) <==> p2.contains(x) by {
        if p1.contains(x) {
            let k = choose|k: int| 0 <= k < p1.len() && p1[k] == x;
            let k2 = lemma_owner_pid_present(ls1, ls2, port, token, o1, o2, k);
            assert(p2[k2] == x);
        }
        if p2.contains(x) {
            let k = choose|k: int| 0 <= k < p2.len() && p2[k] == x;
            let k2 = lemma_owner_pid_present(ls2, ls1, port, token, o2, o1, k);
            assert(p1[k2] == x);
        }
    }
    assert forall|i: int, j: int| 0 <= i < j < p1.len() implies #[trigger] p1[i] < #[trigger] p1[j] by {
        assert(o1[i].pid < o1[j].pid);
    }
    assert forall|i: int, j: int| 0 <= i < j < p2.len() implies #[trigger] p2[i] < #[trigger] p2[j] by {
        assert(o2[i].pid < o2[j].pid);
    }
    lemma_sorted_pids_unique(p1, p2);
    assert(o1.len() == o2.len()) by {
        assert(p1.len() == p2.len());
    }
    assert forall|k: int| 0 <= k < o1.len() implies owner_view(#[trigger] o1[k]) == owner_view(o2[k]) by {
        assert(p1[k] == p2[k]);
        assert(owner_from(ls1, n1, port, token, o1[k]));
        assert(owner_from(ls2, n2, port, token, o2[k]));
        let m1 = choose|m: int| #[trigger] pid_first(ls1, n1, port, token, o1[k].pid, m) && o1[k].name@ == ls1[m].process.name@
            && o1[k].path@ == ls1[m].process.path@;
        let m2 = choose|m: int| #[trigger] pid_first(ls2, n2, port, token, o2[k].pid, m) && o2[k].name@ == ls2[m].process.name@
            && o2[k].path@ == ls2[m].process.path@;
        assert(ls2.contains(ls2[m2]));
        let m3 = choose|m: int| 0 <= m < ls1.len() && ls1[m] == ls2[m2];
        assert(ls1[m1].process.pid == ls1[m3].process.pid);
    }
    assert(o1.map_values(|o: PortOwner| owner_view(o)) =~= o2.map_values(|o: PortOwner| owner_view(o)));
}

proof fn lemma_rows_match(ls1: Seq<PortListener>, ls2: Seq<PortListener>, r1: PortRow, r2: PortRow)
    requires
        forall|l: PortListener| ls1.contains(l) <==> ls2.contains(l),
        consistent_owners(ls1),
        row_of_group(ls1, r1),
        row_of_group(ls2, r2),
        r1.key@ == r2.key@,
    ensures
        row_view(r1) == row_view(r2),
{
    let n1 = ls1.len() as int;
    let n2 = ls2.len() as int;
    let t1 = row_token(r1);
    let t2 = row_token(r2);
    let i1 = choose|i: int|
        #[trigger] group_first(ls1, n1, r1.port, t1, i) && r1.scope == scope_of(ls1[i].socket.ip) && opt_text(
            r1.specific_addr,
        ) == specific_of(ls1[i].socket.ip);
    let i2 = choose|i: int|
        #[trigger] group_first(ls2, n2, r2.port, t2, i) && r2.scope == scope_of(ls2[i].socket.ip) && opt_text(
            r2.specific_addr,
        ) == specific_of(ls2[i].socket.ip);
    assert(in_group(ls1[i1], r1.port, t1));
    assert(in_group(ls2[i2], r2.port, t2));
    lemma_token_lacks_bar(ls1[i1].socket.ip);
    lemma_token_lacks_bar(ls2[i2].socket.ip);
    lemma_row_key_injective(t1, r1.port, r1.owners@, t2, r2.port, r2.owners@);
    lemma_token_fixes_scope(ls1[i1].socket.ip, ls2[i2].socket.ip);
    lemma_same_families(ls1, ls2, r1.port, t1);
    lemma_same_owners(ls1, ls2, r1.port, t1, r1.owners@, r2.owners@);
}

/// Law: normalization depends only on which listeners a scan reported, not
/// on the order it reported them in (nor on repeats): two scans with the
/// same listeners give the same rows, field for field, when each pid names
/// its process the same way wherever it occurs.
pub proof fn law_rows_ignore_scan_order(
    ls1: Seq<PortListener>,
    ls2: Seq<PortListener>,
    rows1: Seq<PortRow>,
    rows2: Seq<PortRow>,
)
    requires
        forall|l: PortListener| ls1.contains(l) <==> ls2.contains(l),
        consistent_owners(ls1),
        normalized(ls1, rows1),
        normalized(ls2, rows2),
    ensures
        rows1.map_values(|r: PortRow| row_view(r)) == rows2.map_values(|r: PortRow| row_view(r)),
{
    law_keys_ignore_scan_order(ls1, ls2, rows1, rows2);
    lemma_normalized_parts(ls1, rows1);
    lemma_normalized_parts(ls2, rows2);
    assert forall|k: int| 0 <= k < rows1.len() implies row_view(#[trigger] rows1[k]) == row_view(rows2[k]) by {
        reveal(rows_of);
        assert(row_keys(rows1)[k] == row_keys(rows2)[k]);
        lemma_rows_match(ls1, ls2, rows1[k], rows2[k]);
    }
    assert(rows1.map_values(|r: PortRow| row_view(r)) =~= rows2.map_values(|r: PortRow| row_view(r)));
}

} // verus!
