//! The small algebra at the heart of the service: membership rights
//! (`Mright`), rights (`Right`) with their total order, modification kinds
//! (`MyMod`), the error type, and the logged-user model.

use vstd::prelude::*;

verus! {

broadcast use vstd::string::group_string_axioms;

/// The error kinds the library surfaces. Authorization and validation
/// failures are client errors; store and remote failures wrap the
/// collaborator's report.
#[derive(Debug, PartialEq)]
pub enum MyErr {
    /// A node id failed validation.
    InvalidId,
    /// A proposed modification is illegal (stem with members, misplaced
    /// remote query, TTL violation, malformed enddate).
    InvalidMods(String),
    /// A node or required parent is missing.
    NotFound(String),
    /// The authorization walk found no grant.
    Forbidden(String),
    /// A node with children cannot be deleted.
    ChildrenExist,
    /// A remote subject query failed.
    Remote(String),
    /// The directory store reported a failure; carries the store's code.
    Store(u32),
    /// An invariant was violated during simplification or cascade.
    Internal(String),
}

impl MyErr {
    /// A human-readable rendering of the error kind.
    pub fn msg(&self) -> (r: String)
        ensures
            r@.len() > 0,
    {
        proof {
            reveal_strlit("invalid id");
            reveal_strlit("invalid mods: ");
            reveal_strlit("not found: ");
            reveal_strlit("forbidden: ");
            reveal_strlit("can not remove a stem with existing children");
            reveal_strlit("remote query failed: ");
            reveal_strlit("store failure");
            reveal_strlit("internal error: ");
        }
        match self {
            MyErr::InvalidId => "invalid id".to_owned(),
            MyErr::InvalidMods(m) => "invalid mods: ".to_owned().concat(m.as_str()),
            MyErr::NotFound(m) => "not found: ".to_owned().concat(m.as_str()),
            MyErr::Forbidden(m) => "forbidden: ".to_owned().concat(m.as_str()),
            MyErr::ChildrenExist => "can not remove a stem with existing children".to_owned(),
            MyErr::Remote(m) => "remote query failed: ".to_owned().concat(m.as_str()),
            MyErr::Store(_) => "store failure".to_owned(),
            MyErr::Internal(m) => "internal error: ".to_owned().concat(m.as_str()),
        }
    }
}

/// The four membership dimensions a node carries, ordered
/// `Member < Reader < Updater < Admin`.
#[derive(Clone, Copy, PartialEq, Eq, Structural, Debug)]
pub enum Mright {
    Member,
    Reader,
    Updater,
    Admin,
}

/// The three rights a subject can hold on a node, ordered
/// `Reader < Updater < Admin`. A stored right grants itself and everything
/// below it.
#[derive(Clone, Copy, PartialEq, Eq, Structural, Debug)]
pub enum Right {
    Reader,
    Updater,
    Admin,
}

/// The three modification kinds a mutation request may carry.
#[derive(Clone, Copy, PartialEq, Eq, Structural, Debug)]
pub enum MyMod {
    Add,
    Delete,
    Replace,
}

impl Mright {
    /// Position of the variant in the `Member < Reader < Updater < Admin`
    /// order.
    pub open spec fn lvl(self) -> int {
        match self {
            Mright::Member => 0,
            Mright::Reader => 1,
            Mright::Updater => 2,
            Mright::Admin => 3,
        }
    }

    /// The storage name of this dimension.
    pub fn to_string(self) -> (r: &'static str)
        ensures
            self == Mright::Member ==> r@ == "member"@,
            self == Mright::Reader ==> r@ == "reader"@,
            self == Mright::Updater ==> r@ == "updater"@,
            self == Mright::Admin ==> r@ == "admin"@,
    {
        match self {
            Mright::Member => "member",
            Mright::Reader => "reader",
            Mright::Updater => "updater",
            Mright::Admin => "admin",
        }
    }

    /// The view of the direct-URL store attribute of this dimension.
    pub open spec fn spec_attr(self) -> Seq<char> {
        match self {
            Mright::Member => "memberURL;x-member"@,
            Mright::Reader => "memberURL;x-reader"@,
            Mright::Updater => "memberURL;x-updater"@,
            Mright::Admin => "memberURL;x-admin"@,
        }
    }

    /// The store attribute holding the direct URLs of this dimension.
    pub fn to_attr(self) -> (r: String)
        ensures
            r@ == self.spec_attr(),
    {
        match self {
            Mright::Member => "memberURL;x-member".to_owned(),
            Mright::Reader => "memberURL;x-reader".to_owned(),
            Mright::Updater => "memberURL;x-updater".to_owned(),
            Mright::Admin => "memberURL;x-admin".to_owned(),
        }
    }

    /// All four dimensions, lowest first.
    pub fn list() -> (r: Vec<Mright>)
        ensures
            r@ == seq![Mright::Member, Mright::Reader, Mright::Updater, Mright::Admin],
    {
        let mut r: Vec<Mright> = Vec::new();
        r.push(Mright::Member);
        r.push(Mright::Reader);
        r.push(Mright::Updater);
        r.push(Mright::Admin);
        proof {
            assert(r@ =~= seq![Mright::Member, Mright::Reader, Mright::Updater, Mright::Admin]);
        }
        r
    }

    /// Parses the storage name back into a dimension; anything else is
    /// reported as invalid.
    pub fn from_string(mright: &str) -> (r: Result<Mright, String>)
        ensures
            mright@ == "member"@ ==> r == Result::<Mright, String>::Ok(Mright::Member),
            mright@ == "reader"@ ==> r == Result::<Mright, String>::Ok(Mright::Reader),
            mright@ == "updater"@ ==> r == Result::<Mright, String>::Ok(Mright::Updater),
            mright@ == "admin"@ ==> r == Result::<Mright, String>::Ok(Mright::Admin),
            r is Err ==> mright@ != "member"@ && mright@ != "reader"@ && mright@ != "updater"@
                && mright@ != "admin"@,
    {
        proof {
            reveal_strlit("member");
            reveal_strlit("reader");
            reveal_strlit("updater");
            reveal_strlit("admin");
            assert("member"@[0] == 'm');
            assert("reader"@[0] == 'r');
            assert("updater"@[0] == 'u');
            assert("admin"@[0] == 'a');
        }
        let s = mright.to_owned();
        if s == "member".to_owned() {
            Ok(Mright::Member)
        } else if s == "reader".to_owned() {
            Ok(Mright::Reader)
        } else if s == "updater".to_owned() {
            Ok(Mright::Updater)
        } else if s == "admin".to_owned() {
            Ok(Mright::Admin)
        } else {
            Err("invalid mright ".to_owned().concat(mright))
        }
    }
}

impl Right {
    /// Position of the variant in the `Reader < Updater < Admin` order.
    pub open spec fn lvl(self) -> int {
        match self {
            Right::Reader => 1,
            Right::Updater => 2,
            Right::Admin => 3,
        }
    }

    /// True if holding `self` satisfies a requirement of `required`.
    pub open spec fn satisfies(self, required: Right) -> bool {
        self.lvl() >= required.lvl()
    }

    /// Position of the variant in the `Reader < Updater < Admin` order.
    pub fn lvl_code(self) -> (r: u8)
        ensures
            r as int == self.lvl(),
    {
        match self {
            Right::Reader => 1,
            Right::Updater => 2,
            Right::Admin => 3,
        }
    }

    /// The rights whose holders satisfy a requirement of `self`, best first.
    pub fn to_allowed_rights(self) -> (r: Vec<Right>)
        ensures
            self == Right::Reader ==> r@ == seq![Right::Admin, Right::Updater, Right::Reader],
            self == Right::Updater ==> r@ == seq![Right::Admin, Right::Updater],
            self == Right::Admin ==> r@ == seq![Right::Admin],
            forall|h: Right| r@.contains(h) <==> h.satisfies(self),
    {
        let mut r: Vec<Right> = Vec::new();
        r.push(Right::Admin);
        match self {
            Right::Reader => {
                r.push(Right::Updater);
                r.push(Right::Reader);
                proof {
                    assert(r@ =~= seq![Right::Admin, Right::Updater, Right::Reader]);
                    assert forall|h: Right| r@.contains(h) <==> h.satisfies(self) by {
                        if h.satisfies(self) {
                            match h {
                                Right::Admin => assert(r@[0] == h),
                                Right::Updater => assert(r@[1] == h),
                                Right::Reader => assert(r@[2] == h),
                            }
                        }
                    }
                }
            },
            Right::Updater => {
                r.push(Right::Updater);
                proof {
                    assert(r@ =~= seq![Right::Admin, Right::Updater]);
                    assert forall|h: Right| r@.contains(h) <==> h.satisfies(self) by {
                        if h.satisfies(self) {
                            match h {
                                Right::Admin => assert(r@[0] == h),
                                Right::Updater => assert(r@[1] == h),
                                Right::Reader => assert(false),
                            }
                        }
                    }
                }
            },
            Right::Admin => {
                proof {
                    assert(r@ =~= seq![Right::Admin]);
                    assert forall|h: Right| r@.contains(h) <==> h.satisfies(self) by {
                        if h.satisfies(self) {
                            assert(r@[0] == h);
                        }
                    }
                }
            },
        }
        r
    }

    /// The direct-URL attributes read when checking a requirement of `self`,
    /// best right first.
    pub fn to_allowed_attrs(self) -> (r: Vec<String>)
        ensures
            r@.len() == self.to_allowed_rights_spec().len(),
            forall|i: int|
                0 <= i < r@.len() ==> r@[i]@ == self.to_allowed_rights_spec()[i].to_mright_spec().spec_attr(),
    {
        let rights = self.to_allowed_rights();
        let mut r: Vec<String> = Vec::new();
        let mut i: usize = 0;
        while i < rights.len()
            invariant
                i <= rights@.len(),
                rights@ == self.to_allowed_rights_spec(),
                r@.len() == i,
                forall|j: int|
                    0 <= j < i ==> r@[j]@ == self.to_allowed_rights_spec()[j].to_mright_spec().spec_attr(),
            decreases rights@.len() - i,
        {
            r.push(rights[i].to_attr());
            i = i + 1;
        }
        r
    }

    /// The sequence `to_allowed_rights` returns, as a specification value.
    pub open spec fn to_allowed_rights_spec(self) -> Seq<Right> {
        match self {
            Right::Reader => seq![Right::Admin, Right::Updater, Right::Reader],
            Right::Updater => seq![Right::Admin, Right::Updater],
            Right::Admin => seq![Right::Admin],
        }
    }

    /// The membership dimension a right is stored under.
    pub open spec fn to_mright_spec(self) -> Mright {
        match self {
            Right::Reader => Mright::Reader,
            Right::Updater => Mright::Updater,
            Right::Admin => Mright::Admin,
        }
    }

    /// The membership dimension a right is stored under.
    pub fn to_mright(self) -> (r: Mright)
        ensures
            r == self.to_mright_spec(),
    {
        match self {
            Right::Reader => Mright::Reader,
            Right::Updater => Mright::Updater,
            Right::Admin => Mright::Admin,
        }
    }

    /// The store attribute holding the direct URLs of this right.
    pub fn to_attr(self) -> (r: String)
        ensures
            r@ == self.to_mright_spec().spec_attr(),
    {
        self.to_mright().to_attr()
    }

    /// Parses the storage name back into a right; anything else is reported
    /// as invalid.
    pub fn from_string(right: &str) -> (r: Result<Right, String>)
        ensures
            right@ == "reader"@ ==> r == Result::<Right, String>::Ok(Right::Reader),
            right@ == "updater"@ ==> r == Result::<Right, String>::Ok(Right::Updater),
            right@ == "admin"@ ==> r == Result::<Right, String>::Ok(Right::Admin),
            r is Err ==> right@ != "reader"@ && right@ != "updater"@ && right@ != "admin"@,
    {
        proof {
            reveal_strlit("reader");
            reveal_strlit("updater");
            reveal_strlit("admin");
            assert("reader"@[0] == 'r');
            assert("updater"@[0] == 'u');
            assert("admin"@[0] == 'a');
        }
        let s = right.to_owned();
        if s == "reader".to_owned() {
            Ok(Right::Reader)
        } else if s == "updater".to_owned() {
            Ok(Right::Updater)
        } else if s == "admin".to_owned() {
            Ok(Right::Admin)
        } else {
            Err("invalid right ".to_owned().concat(right))
        }
    }
}

/// The principal a request runs as: the trusted service principal, which
/// bypasses authorization, or a logged user named by id.
pub enum LoggedUser {
    TrustedAdmin,
    User(String),
}

/// A principal resolved to its identity surface: the set of URLs that
/// represent it in direct-right values (its own DN plus the DN of every
/// group whose flattened member set holds it).
pub enum LoggedUserUrls {
    TrustedAdmin,
    User(crate::str_set::StrSet),
}

/// Configuration of the single-sign-on collaborator.
pub struct CasConfig {
    pub prefix_url: String,
}

/// Configuration of the stem model: the id filter, the segment separator
/// and the id of the root stem.
pub struct StemConfig {
    pub filter: String,
    pub separator: String,
    pub root_id: String,
}

/// How a subject source exposes flattened membership.
pub struct SubjectSourceFlattenConfig {
    pub attr: String,
}

/// One branch of the store holding subjects.
pub struct SubjectSourceConfig {
    pub dn: String,
    pub name: String,
    pub vue_template: Option<String>,
    pub vue_template_if_ambiguous: Option<String>,
    pub display_attrs: Vec<String>,
    pub search_filter: String,
}

/// Display texts of one node attribute.
pub struct AttrTexts {
    pub label: String,
    pub description: String,
}

/// The store attribute holding the flattened DNs of each membership
/// dimension.
pub struct FlattenedAttrs {
    pub member: String,
    pub reader: String,
    pub updater: String,
    pub admin: String,
}

impl FlattenedAttrs {
    /// The view of the flattened attribute of `mright`.
    pub open spec fn spec_attr(&self, mright: Mright) -> Seq<char> {
        match mright {
            Mright::Member => self.member@,
            Mright::Reader => self.reader@,
            Mright::Updater => self.updater@,
            Mright::Admin => self.admin@,
        }
    }

    /// The flattened attribute of `mright`.
    pub fn to_attr(&self, mright: Mright) -> (r: &String)
        ensures
            r@ == self.spec_attr(mright),
    {
        match mright {
            Mright::Member => &self.member,
            Mright::Reader => &self.reader,
            Mright::Updater => &self.updater,
            Mright::Admin => &self.admin,
        }
    }
}

/// Configuration of the directory store and of the group tree inside it.
pub struct LdapConfig {
    pub url: String,
    pub bind_dn: String,
    pub bind_password: String,
    pub base_dn: String,
    pub groups_dn: String,
    pub stem_object_classes: Vec<String>,
    pub group_object_classes: Vec<String>,
    pub stem: StemConfig,
    pub subject_sources: Vec<SubjectSourceConfig>,
    pub groups_flattened_attr: FlattenedAttrs,
    pub sgroup_attrs: Vec<(String, AttrTexts)>,
}

impl LdapConfig {
    /// The subject source that holds the sgroups themselves: the one whose
    /// branch is `groups_dn`. A configuration without it is rejected at
    /// load time.
    pub fn sgroup_sscfg(&self) -> (r: Option<&SubjectSourceConfig>)
        ensures
            match r {
                Some(c) => exists|i: int|
                    0 <= i < self.subject_sources@.len() && *c == self.subject_sources@[i]
                        && c.dn@ == self.groups_dn@,
                None => forall|i: int|
                    0 <= i < self.subject_sources@.len()
                        ==> (#[trigger] self.subject_sources@[i]).dn@ != self.groups_dn@,
            },
    {
        let mut i: usize = 0;
        while i < self.subject_sources.len()
            invariant
                i <= self.subject_sources@.len(),
                forall|j: int|
                    0 <= j < i ==> (#[trigger] self.subject_sources@[j]).dn@ != self.groups_dn@,
            decreases self.subject_sources@.len() - i,
        {
            if crate::str_utils::str_eq(
                self.subject_sources[i].dn.as_str(),
                self.groups_dn.as_str(),
            ) {
                return Some(&self.subject_sources[i]);
            }
            i = i + 1;
        }
        None
    }
}

/// The driver a remote subject source speaks.
#[derive(Clone, Copy, PartialEq, Eq, Structural, Debug)]
pub enum RemoteDriver {
    Mysql,
}

/// Configuration of one remote subject source.
pub struct RemoteConfig {
    pub host: String,
    pub port: Option<u16>,
    pub driver: RemoteDriver,
    pub user: String,
    pub password: String,
    pub periodicity: String,
}

/// The whole service configuration.
pub struct Config {
    pub trusted_auth_bearer: Option<String>,
    pub cas: CasConfig,
    pub ldap: LdapConfig,
    pub remotes: Vec<(String, RemoteConfig)>,
}

/// A request context: the configuration and the logged principal.
pub struct CfgAndLU<'a> {
    pub cfg: &'a Config,
    pub user: LoggedUser,
}

/// Single-valued attributes of a node, keyed by attribute name.
pub type MonoAttrs = Vec<(String, String)>;

/// Nodes with their single-valued attributes, keyed by node id.
pub type SgroupsWithAttrs = Vec<(String, MonoAttrs)>;

/// Subjects with their display attributes, keyed by DN.
pub type Subjects = Vec<(String, MonoAttrs)>;

/// One parent on a node's ancestor chain, with the right the requesting
/// user holds directly on it, if any.
pub struct SgroupOutAndRight {
    pub attrs: MonoAttrs,
    pub sgroup_id: String,
    pub right: Option<Right>,
}

/// The kind-specific part of a node read: a stem lists its children, a
/// group its direct members.
pub enum SgroupOutMore {
    Stem { children: SgroupsWithAttrs },
    Group { direct_members: Subjects },
}

/// The full answer to a node read: attributes, kind-specific content, the
/// ancestor chain and the requesting user's effective right.
pub struct SgroupAndMoreOut {
    pub attrs: MonoAttrs,
    pub more: SgroupOutMore,
    pub parents: Vec<SgroupOutAndRight>,
    pub right: Right,
}

/// One URL in a proposed modification, with its options.
pub struct UrlOpts {
    pub url: String,
    pub enddate: Option<String>,
}

/// The proposed changes of one membership dimension.
pub struct SubMods {
    pub add: Vec<UrlOpts>,
    pub delete: Vec<UrlOpts>,
    pub replace: Option<Vec<UrlOpts>>,
}

/// A full modification request: the proposed changes of every dimension.
pub struct MyMods {
    pub member: SubMods,
    pub reader: SubMods,
    pub updater: SubMods,
    pub admin: SubMods,
}

impl SubMods {
    /// A sub-modification with nothing in it.
    pub open spec fn is_empty_spec(&self) -> bool {
        self.add@.len() == 0 && self.delete@.len() == 0 && self.replace is None
    }

    /// A sub-modification with nothing in it.
    pub fn is_empty(&self) -> (r: bool)
        ensures
            r == self.is_empty_spec(),
    {
        self.add.len() == 0 && self.delete.len() == 0 && self.replace.is_none()
    }

    /// The empty sub-modification.
    pub fn none() -> (r: SubMods)
        ensures
            r.is_empty_spec(),
            r.add@ == Seq::<UrlOpts>::empty(),
            r.delete@ == Seq::<UrlOpts>::empty(),
            r.replace is None,
    {
        SubMods { add: Vec::new(), delete: Vec::new(), replace: None }
    }
}

impl MyMods {
    /// The proposed changes of one dimension.
    pub open spec fn get_spec(&self, mright: Mright) -> SubMods {
        match mright {
            Mright::Member => self.member,
            Mright::Reader => self.reader,
            Mright::Updater => self.updater,
            Mright::Admin => self.admin,
        }
    }

    /// The proposed changes of one dimension.
    pub fn get(&self, mright: Mright) -> (r: &SubMods)
        ensures
            *r == self.get_spec(mright),
    {
        match mright {
            Mright::Member => &self.member,
            Mright::Reader => &self.reader,
            Mright::Updater => &self.updater,
            Mright::Admin => &self.admin,
        }
    }

    /// A request with nothing in it.
    pub open spec fn is_empty_spec(&self) -> bool {
        self.member.is_empty_spec() && self.reader.is_empty_spec()
            && self.updater.is_empty_spec() && self.admin.is_empty_spec()
    }

    /// A request with nothing in it.
    pub fn is_empty(&self) -> (r: bool)
        ensures
            r == self.is_empty_spec(),
    {
        self.member.is_empty() && self.reader.is_empty() && self.updater.is_empty()
            && self.admin.is_empty()
    }
}

} // verus!
