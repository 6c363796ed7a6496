use vstd::prelude::*;
use crate::model::{contains_name, entries_unique, metadata_view, str_views};

verus! {

/// The privilege bit that makes the lists of a group apply.
pub const PRIVILEGE_ENABLE: u8 = 1;

/// The privilege bit that admits every key, whatever the whitelist holds.
pub const PRIVILEGE_WHITELIST_IS_ALL: u8 = 2;

/// The privilege bit that refuses every key, whatever the blacklist holds.
pub const PRIVILEGE_BLACKLIST_IS_ALL: u8 = 4;

/// Which keys (here: namespaces) a user may reach.
#[derive(Clone, Debug)]
pub struct PrivilegeGroup {
    pub enabled: bool,
    pub whitelist_is_all: bool,
    pub whitelist: Option<Vec<String>>,
    pub blacklist_is_all: bool,
    pub blacklist: Option<Vec<String>>,
}

pub open spec fn names_in(v: Option<Vec<String>>) -> Set<Seq<char>> {
    match v {
        Some(l) => str_views(l@).to_set(),
        None => Set::empty(),
    }
}

/// The lists hold each name once.
pub open spec fn lists_distinct(g: PrivilegeGroup) -> bool {
    (g.whitelist matches Some(l) ==> no_repeats(str_views(l@)))
    && (g.blacklist matches Some(l) ==> no_repeats(str_views(l@)))
}

pub open spec fn no_repeats(s: Seq<Seq<char>>) -> bool {
    forall|i: int, j: int| 0 <= i < j < s.len() ==> s[i] != s[j]
}

/// A key is admitted when the group is enabled, the key is on the whitelist
/// (or it admits all) and not on the blacklist (nor does it refuse all).
pub open spec fn permits(g: PrivilegeGroup, key: Seq<char>) -> bool {
    g.enabled && (g.whitelist_is_all || names_in(g.whitelist).contains(key)) && !(
    g.blacklist_is_all || names_in(g.blacklist).contains(key))
}

/// The names of `v`, each once, in the order of their first occurrence.
pub fn distinct_names(v: &Vec<String>) -> (r: Vec<String>)
    ensures
        str_views(r@).to_set() == str_views(v@).to_set(),
        no_repeats(str_views(r@)),
{
    let mut out: Vec<String> = Vec::new();
    let mut i: usize = 0;
    while i < v.len()
        invariant
            i <= v.len(),
            no_repeats(str_views(out@)),
            forall|s: Seq<char>| str_views(out@).contains(s) <==> str_views(v@.take(i as int)).contains(s),
        decreases v.len() - i,
    {
        let ghost before = str_views(out@);
        let ghost pre = str_views(v@.take(i as int));
        let ghost post = str_views(v@.take(i + 1));
        assert(post =~= pre.push(v@[i as int]@));
        let ghost vi = v@[i as int]@;
        let found = contains_name(&out, &v[i]);
        if !found {
            out.push(v[i].clone());
            assert(str_views(out@) =~= before.push(vi));
        }
        assert(str_views(out@).contains(vi)) by {
            if found {
            } else {
                assert(str_views(out@)[before.len() as int] == vi);
            }
        }
        assert forall|s: Seq<char>| str_views(out@).contains(s) <==> post.contains(s) by {
            if post.contains(s) {
                let x = choose|x: int| 0 <= x < post.len() && post[x] == s;
                if x < pre.len() {
                    assert(pre[x] == s);
                    assert(pre.contains(s));
                    assert(before.contains(s));
                    let y = choose|y: int| 0 <= y < before.len() && before[y] == s;
                    assert(str_views(out@)[y] == s);
                } else {
                    assert(s == vi);
                }
            }
            if str_views(out@).contains(s) {
                let x = choose|x: int| 0 <= x < str_views(out@).len() && str_views(out@)[x] == s;
                if x < before.len() {
                    assert(before[x] == s);
                    assert(before.contains(s));
                    assert(pre.contains(s));
                    let y = choose|y: int| 0 <= y < pre.len() && pre[y] == s;
                    assert(post[y] == s);
                } else {
                    assert(s == vi);
                    assert(post[pre.len() as int] == vi);
                }
            }
        }
        i = i + 1;
    }
    assert(v@.take(v.len() as int) =~= v@);
    assert(str_views(out@).to_set() =~= str_views(v@).to_set());
    out
}

impl PrivilegeGroup {
    /// A group built from privilege bits and the two lists.
    pub fn new(flags: u8, whitelist: Option<Vec<String>>, blacklist: Option<Vec<String>>) -> (r: Self)
        ensures
            r.enabled == (flags & PRIVILEGE_ENABLE != 0),
            r.whitelist_is_all == (flags & PRIVILEGE_WHITELIST_IS_ALL != 0),
            r.blacklist_is_all == (flags & PRIVILEGE_BLACKLIST_IS_ALL != 0),
            r.whitelist == whitelist,
            r.blacklist == blacklist,
    {
        PrivilegeGroup {
            enabled: flags & PRIVILEGE_ENABLE != 0,
            whitelist_is_all: flags & PRIVILEGE_WHITELIST_IS_ALL != 0,
            whitelist,
            blacklist_is_all: flags & PRIVILEGE_BLACKLIST_IS_ALL != 0,
            blacklist,
        }
    }

    /// The group that admits every key.
    pub fn all() -> (r: Self)
        ensures
            r.enabled,
            r.whitelist_is_all,
            !r.blacklist_is_all,
            r.whitelist is None,
            r.blacklist is None,
            forall|k: Seq<char>| permits(r, k),
    {
        PrivilegeGroup {
            enabled: true,
            whitelist_is_all: true,
            whitelist: None,
            blacklist_is_all: false,
            blacklist: None,
        }
    }

    /// Whether `key` is admitted.
    pub fn check_permission(&self, key: &String) -> (r: bool)
        ensures
            r == permits(*self, key@),
    {
        if !self.enabled {
            return false;
        }
        let white = self.whitelist_is_all || match &self.whitelist {
            Some(l) => contains_name(l, key),
            None => false,
        };
        let black = self.blacklist_is_all || match &self.blacklist {
            Some(l) => contains_name(l, key),
            None => false,
        };
        proof {
            if let Some(l) = &self.whitelist {
                assert(str_views(l@).contains(key@) == str_views(l@).to_set().contains(key@));
            }
            if let Some(l) = &self.blacklist {
                assert(str_views(l@).contains(key@) == str_views(l@).to_set().contains(key@));
            }
        }
        white && !black
    }
}

/// The stored record of a user.
#[derive(Clone, Debug)]
pub struct UserDo {
    pub username: String,
    pub password: String,
    pub nickname: String,
    pub gmt_create: u32,
    pub gmt_modified: u32,
    pub enable: bool,
    pub roles: Vec<String>,
    pub extend_info: Vec<(String, String)>,
    pub password_hash: Option<String>,
    pub namespace_privilege_flags: Option<u32>,
    pub namespace_white_list: Vec<String>,
    pub namespace_black_list: Vec<String>,
}

/// The privilege bits of a user: the low byte of the stored flags, zero when none are stored.
pub open spec fn privilege_bits(flags: Option<u32>) -> u8 {
    match flags {
        Some(f) => (f % 256) as u8,
        None => 0,
    }
}

/// `g` is the namespace privilege of `u`: when the enable bit is set, a
/// group with the stored bits and the two namespace lists (each name once);
/// otherwise the group that admits every namespace.
pub open spec fn namespace_privilege_of(u: UserDo, g: PrivilegeGroup) -> bool {
    let f = privilege_bits(u.namespace_privilege_flags);
    &&& lists_distinct(g)
    &&& f & PRIVILEGE_ENABLE != 0 ==> {
        &&& g.enabled
        &&& g.whitelist_is_all == (f & PRIVILEGE_WHITELIST_IS_ALL != 0)
        &&& g.blacklist_is_all == (f & PRIVILEGE_BLACKLIST_IS_ALL != 0)
        &&& g.whitelist is Some && g.blacklist is Some
        &&& names_in(g.whitelist) == str_views(u.namespace_white_list@).to_set()
        &&& names_in(g.blacklist) == str_views(u.namespace_black_list@).to_set()
    }
    &&& f & PRIVILEGE_ENABLE == 0 ==> {
        &&& g.enabled && g.whitelist_is_all && !g.blacklist_is_all
        &&& g.whitelist is None && g.blacklist is None
    }
}

impl UserDo {
    /// The extra information is a mapping: no key occurs twice.
    pub open spec fn wf(&self) -> bool {
        entries_unique(metadata_view(self.extend_info@))
    }

    /// The namespace privilege of the user: when the enable bit is set, a
    /// group with the stored bits and the two namespace lists (each name
    /// once); otherwise the group that admits every namespace.
    pub fn build_namespace_privilege(&self) -> (r: PrivilegeGroup)
        ensures
            namespace_privilege_of(*self, r),
    {
        let flags: u8 = match self.namespace_privilege_flags {
            Some(f) => (f % 256) as u8,
            None => 0,
        };
        if flags & PRIVILEGE_ENABLE != 0 {
            let white = distinct_names(&self.namespace_white_list);
            let black = distinct_names(&self.namespace_black_list);
            PrivilegeGroup::new(flags, Some(white), Some(black))
        } else {
            PrivilegeGroup::all()
        }
    }
}

/// A user as shown to clients: no password, times in milliseconds.
#[derive(Clone, Debug)]
pub struct UserDto {
    pub username: String,
    pub nickname: Option<String>,
    pub password: Option<String>,
    pub password_hash: Option<String>,
    pub gmt_create: Option<i64>,
    pub gmt_modified: Option<i64>,
    pub enable: Option<bool>,
    pub roles: Option<Vec<String>>,
    pub extend_info: Option<Vec<(String, String)>>,
    pub namespace_privilege: Option<PrivilegeGroup>,
}

impl UserDto {
    /// The extra information, when present, is a mapping: no key occurs twice.
    pub open spec fn wf(&self) -> bool {
        self.extend_info matches Some(e) ==> entries_unique(metadata_view(e@))
    }

    /// The client view of a stored user.
    pub fn from_user_do(value: UserDo) -> (r: Self)
        ensures
            r.username@ == value.username@,
            r.nickname matches Some(n) && n@ == value.nickname@,
            r.password is None,
            r.password_hash == value.password_hash,
            r.gmt_create == Some((value.gmt_create * 1000) as i64),
            r.gmt_modified == Some((value.gmt_modified * 1000) as i64),
            r.enable == Some(value.enable),
            r.roles matches Some(v) && str_views(v@) == str_views(value.roles@),
            r.extend_info == Some(value.extend_info),
            value.wf() ==> r.wf(),
            r.namespace_privilege matches Some(g) && namespace_privilege_of(value, g),
    {
        let namespace_privilege = value.build_namespace_privilege();
        let mut roles: Vec<String> = Vec::new();
        let mut i: usize = 0;
        while i < value.roles.len()
            invariant
                i <= value.roles.len(),
                roles@ == value.roles@.take(i as int),
            decreases value.roles.len() - i,
        {
            let ghost before = roles@;
            roles.push(value.roles[i].clone());
            assert(roles@ == before.push(value.roles@[i as int]));
            i = i + 1;
            assert(roles@ =~= value.roles@.take(i as int));
        }
        assert(value.roles@.take(i as int) =~= value.roles@);
        UserDto {
            username: value.username,
            nickname: Some(value.nickname),
            password: None,
            password_hash: value.password_hash,
            gmt_create: Some(value.gmt_create as i64 * 1000),
            gmt_modified: Some(value.gmt_modified as i64 * 1000),
            enable: Some(value.enable),
            roles: Some(roles),
            extend_info: Some(value.extend_info),
            namespace_privilege: Some(namespace_privilege),
        }
    }
}

} // verus!
