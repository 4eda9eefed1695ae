//! The machine-image data model: the fields of an image record that are
//! validated, launch permissions, and the per-image decisions of the
//! describe protocol.

use crate::assoc::AssocMap;
use crate::assoc::MapVal;
use vstd::prelude::*;

verus! {

/// One grant of launch permission; equality is structural.
#[derive(Debug, Clone, PartialEq, Eq, Hash)]
pub struct LaunchPermissionDef {
    /// The name of the group given launch permission.
    pub group: Option<String>,
    /// The account id given launch permission.
    pub user_id: Option<String>,
    /// The ARN of an organization given launch permission.
    pub organization_arn: Option<String>,
    /// The ARN of an organizational unit given launch permission.
    pub organizational_unit_arn: Option<String>,
}

/// The mathematical content of a [`LaunchPermissionDef`].
pub struct LaunchPermissionView {
    pub group: Option<Seq<char>>,
    pub user_id: Option<Seq<char>>,
    pub organization_arn: Option<Seq<char>>,
    pub organizational_unit_arn: Option<Seq<char>>,
}

/// The view of an optional string.
pub open spec fn opt_view(o: Option<String>) -> Option<Seq<char>> {
    match o {
        Some(s) => Some(s@),
        None => None,
    }
}

impl View for LaunchPermissionDef {
    type V = LaunchPermissionView;

    open spec fn view(&self) -> LaunchPermissionView {
        LaunchPermissionView {
            group: opt_view(self.group),
            user_id: opt_view(self.user_id),
            organization_arn: opt_view(self.organization_arn),
            organizational_unit_arn: opt_view(self.organizational_unit_arn),
        }
    }
}

fn opt_str_eq(a: &Option<String>, b: &Option<String>) -> (r: bool)
    ensures
        r == (opt_view(*a) == opt_view(*b)),
{
    match (a, b) {
        (Some(x), Some(y)) => x.eq(y),
        (None, None) => true,
        _ => false,
    }
}

fn opt_str_dup(a: &Option<String>) -> (r: Option<String>)
    ensures
        opt_view(r) == opt_view(*a),
{
    match a {
        Some(x) => Some(x.clone()),
        None => None,
    }
}

impl LaunchPermissionDef {
    /// Decides structural equality of two grants, exactly as their views
    /// compare.
    pub fn perm_eq(&self, other: &Self) -> (r: bool)
        ensures
            r == (self@ == other@),
    {
        opt_str_eq(&self.group, &other.group) && opt_str_eq(&self.user_id, &other.user_id)
            && opt_str_eq(&self.organization_arn, &other.organization_arn) && opt_str_eq(
            &self.organizational_unit_arn,
            &other.organizational_unit_arn,
        )
    }

    /// Clones a grant; the copy has the same view.
    pub fn perm_dup(&self) -> (r: Self)
        ensures
            r@ == self@,
    {
        LaunchPermissionDef {
            group: opt_str_dup(&self.group),
            user_id: opt_str_dup(&self.user_id),
            organization_arn: opt_str_dup(&self.organization_arn),
            organizational_unit_arn: opt_str_dup(&self.organizational_unit_arn),
        }
    }
}

/// The views of a sequence of grants.
pub open spec fn perms_seq_view(v: Seq<LaunchPermissionDef>) -> Seq<LaunchPermissionView> {
    v.map_values(|x: LaunchPermissionDef| x@)
}

/// The view of an optional grant list.
pub open spec fn perms_view(p: Option<Vec<LaunchPermissionDef>>) -> Option<
    Seq<LaunchPermissionView>,
> {
    match p {
        Some(v) => Some(perms_seq_view(v@)),
        None => None,
    }
}

fn perms_vec_eq(a: &Vec<LaunchPermissionDef>, b: &Vec<LaunchPermissionDef>) -> (r: bool)
    ensures
        r == (perms_seq_view(a@) == perms_seq_view(b@)),
{
    let n = a.len();
    if n != b.len() {
        proof {
            assert(perms_seq_view(a@).len() != perms_seq_view(b@).len());
        }
        return false;
    }
    let mut i: usize = 0;
    while i < n
        invariant
            n == a@.len(),
            n == b@.len(),
            i <= n,
            forall|j: int| 0 <= j < i ==> a@[j]@ == b@[j]@,
        decreases n - i,
    {
        if !a[i].perm_eq(&b[i]) {
            proof {
                assert(perms_seq_view(a@)[i as int] != perms_seq_view(b@)[i as int]);
            }
            return false;
        }
        i += 1;
    }
    proof {
        assert(perms_seq_view(a@) =~= perms_seq_view(b@));
    }
    true
}

fn perms_vec_dup(a: &Vec<LaunchPermissionDef>) -> (r: Vec<LaunchPermissionDef>)
    ensures
        perms_seq_view(r@) == perms_seq_view(a@),
{
    let n = a.len();
    let mut out: Vec<LaunchPermissionDef> = Vec::new();
    let mut i: usize = 0;
    while i < n
        invariant
            n == a@.len(),
            i <= n,
            out@.len() == i,
            forall|j: int| 0 <= j < i ==> out@[j]@ == a@[j]@,
        decreases n - i,
    {
        out.push(a[i].perm_dup());
        i += 1;
    }
    proof {
        assert(perms_seq_view(out@) =~= perms_seq_view(a@));
    }
    out
}

fn perms_eq(a: &Option<Vec<LaunchPermissionDef>>, b: &Option<Vec<LaunchPermissionDef>>) -> (r:
    bool)
    ensures
        r == (perms_view(*a) == perms_view(*b)),
{
    match (a, b) {
        (Some(x), Some(y)) => perms_vec_eq(x, y),
        (None, None) => true,
        _ => false,
    }
}

fn perms_dup(a: &Option<Vec<LaunchPermissionDef>>) -> (r: Option<Vec<LaunchPermissionDef>>)
    ensures
        perms_view(r) == perms_view(*a),
{
    match a {
        Some(x) => Some(perms_vec_dup(x)),
        None => None,
    }
}

/// The fields of a machine-image record that are validated.  A public
/// image's individual launch permissions are meaningless: permission lists
/// only control non-public sharing, so they are treated as absent whenever
/// `public` is true.
#[derive(Debug, Clone, PartialEq, Eq, Hash)]
pub struct ImageDef {
    /// The id of the image.
    pub id: String,
    /// The name of the image.
    pub name: String,
    /// Whether or not the image is public.
    pub public: bool,
    /// The launch permissions for the image.
    pub launch_permissions: Option<Vec<LaunchPermissionDef>>,
    /// Whether or not the image supports Elastic Network Adapter.
    pub ena_support: bool,
    /// The level of the image's Single Root I/O Virtualization support.
    pub sriov_net_support: String,
}

/// The mathematical content of an [`ImageDef`].
pub struct ImageDefView {
    pub id: Seq<char>,
    pub name: Seq<char>,
    pub public: bool,
    pub launch_permissions: Option<Seq<LaunchPermissionView>>,
    pub ena_support: bool,
    pub sriov_net_support: Seq<char>,
}

impl View for ImageDef {
    type V = ImageDefView;

    open spec fn view(&self) -> ImageDefView {
        ImageDefView {
            id: self.id@,
            name: self.name@,
            public: self.public,
            launch_permissions: perms_view(self.launch_permissions),
            ena_support: self.ena_support,
            sriov_net_support: self.sriov_net_support@,
        }
    }
}

impl ImageDef {
    /// Decides structural equality of two records, exactly as their views
    /// compare.
    pub fn image_eq(&self, other: &Self) -> (r: bool)
        ensures
            r == (self@ == other@),
    {
        self.id.eq(&other.id) && self.name.eq(&other.name) && self.public == other.public
            && perms_eq(&self.launch_permissions, &other.launch_permissions) && self.ena_support
            == other.ena_support && self.sriov_net_support.eq(&other.sriov_net_support)
    }

    /// Clones a record; the copy has the same view.
    pub fn image_dup(&self) -> (r: Self)
        ensures
            r@ == self@,
    {
        ImageDef {
            id: self.id.clone(),
            name: self.name.clone(),
            public: self.public,
            launch_permissions: perms_dup(&self.launch_permissions),
            ena_support: self.ena_support,
            sriov_net_support: self.sriov_net_support.clone(),
        }
    }
}

impl ImageDef {
    /// The record a backend-described image denotes: absent fields take the
    /// backend's own defaults (empty text, false), and launch permissions
    /// start absent — they are attached later only when the image is
    /// expected to be non-public.
    pub fn from_described(
        id: String,
        name: Option<String>,
        public: Option<bool>,
        ena_support: Option<bool>,
        sriov_net_support: Option<String>,
    ) -> (r: ImageDef)
        ensures
            r@.id == id@,
            r@.name == (match name {
                Some(n) => n@,
                None => Seq::<char>::empty(),
            }),
            r@.public == (match public {
                Some(p) => p,
                None => false,
            }),
            r@.launch_permissions is None,
            r@.ena_support == (match ena_support {
                Some(e) => e,
                None => false,
            }),
            r@.sriov_net_support == (match sriov_net_support {
                Some(v) => v@,
                None => Seq::<char>::empty(),
            }),
    {
        ImageDef {
            id,
            name: match name {
                Some(n) => n,
                None => String::new(),
            },
            public: match public {
                Some(p) => p,
                None => false,
            },
            launch_permissions: None,
            ena_support: match ena_support {
                Some(e) => e,
                None => false,
            },
            sriov_net_support: match sriov_net_support {
                Some(v) => v,
                None => String::new(),
            },
        }
    }
}

impl MapVal for ImageDef {
    fn val_eq(&self, other: &Self) -> (r: bool) {
        self.image_eq(other)
    }

    fn val_dup(&self) -> (r: Self) {
        self.image_dup()
    }
}

/// A mapping from image id to the record retrieved for it.
pub type ImageMap = AssocMap<String, ImageDef>;

/// A mapping from image id to whether the image is expected to be public.
pub type PublicityMap = AssocMap<String, bool>;

/// Whether an image record supports Elastic Network Adapter when the record
/// does not say.
pub fn default_ena_support() -> (r: bool)
    ensures
        r,
{
    true
}

/// The level of Single Root I/O Virtualization support an image record has
/// when the record does not say.
pub fn default_sriov_net_support() -> (r: String)
    ensures
        r@ == "simple"@,
{
    "simple".to_owned()
}

/// Why describing images in a region failed.
#[derive(Debug, Clone, PartialEq, Eq)]
pub enum DescribeError {
    /// The backend's describe call for a region failed; the message is the
    /// transport's own words.
    DescribeImages { region: String, message: String },
    /// Retrieving the launch permissions of one image failed.
    GetLaunchPermissions { region: String, image_id: String, message: String },
    /// A returned image lacked a field it must have.
    MissingField { missing: String },
    /// The backend returned an image that was never asked about.
    MissingExpectedPublic { missing: String },
}

/// Decides, for one image the backend returned, whether its launch
/// permissions must also be fetched: they must when the image is expected to
/// be non-public.  An image whose id was never asked about is an error.
pub fn launch_permission_fetch_needed(
    image_id: &String,
    expected_image_public: &PublicityMap,
) -> (r: Result<bool, DescribeError>)
    ensures
        match r {
            Ok(fetch) => expected_image_public@.contains_key(image_id@) && fetch
                == !expected_image_public@[image_id@],
            Err(e) => !expected_image_public@.contains_key(image_id@) && (e
                matches DescribeError::MissingExpectedPublic { missing } && missing@ == image_id@),
        },
{
    match expected_image_public.get(image_id) {
        Some(public) => Ok(!*public),
        None => Err(DescribeError::MissingExpectedPublic { missing: image_id.clone() }),
    }
}

/// Attaches a fetched launch-permission list to a record, leaving every
/// other field as it was.
pub fn attach_launch_permissions(
    image: ImageDef,
    permissions: Vec<LaunchPermissionDef>,
) -> (r: ImageDef)
    ensures
        r@ == (ImageDefView { launch_permissions: Some(perms_seq_view(permissions@)), ..image@ }),
{
    let mut image = image;
    image.launch_permissions = Some(permissions);
    image
}

/// Builds the map from image id to expected publicity out of every region's
/// expected records.  Every expected id is present; each id's publicity is
/// that of an expected record with that id.
pub fn build_expected_image_public(expected: &Vec<(String, Vec<ImageDef>)>) -> (r: PublicityMap)
    ensures
        forall|j: int, l: int|
            0 <= j < expected@.len() && 0 <= l < expected@[j].1@.len() ==> r@.contains_key(
                (#[trigger] expected@[j].1@[l])@.id,
            ),
        forall|id: Seq<char>| #[trigger]
            r@.contains_key(id) ==> exists|j: int, l: int|
                0 <= j < expected@.len() && 0 <= l < expected@[j].1@.len() && (
                #[trigger] expected@[j].1@[l])@.id == id && r@[id] == expected@[j].1@[l]@.public,
{
    let mut out = PublicityMap::new();
    let n = expected.len();
    let mut j: usize = 0;
    while j < n
        invariant
            n == expected@.len(),
            j <= n,
            forall|j2: int, l: int|
                0 <= j2 < j && 0 <= l < expected@[j2].1@.len() ==> out@.contains_key(
                    (#[trigger] expected@[j2].1@[l])@.id,
                ),
            forall|id: Seq<char>| #[trigger]
                out@.contains_key(id) ==> exists|j2: int, l: int|
                    0 <= j2 < j && 0 <= l < expected@[j2].1@.len() && (
                    #[trigger] expected@[j2].1@[l])@.id == id && out@[id]
                        == expected@[j2].1@[l]@.public,
        decreases n - j,
    {
        let images = &expected[j].1;
        let m = images.len();
        let mut l: usize = 0;
        while l < m
            invariant
                n == expected@.len(),
                j < n,
                m == expected@[j as int].1@.len(),
                images == &expected@[j as int].1,
                l <= m,
                forall|j2: int, l2: int|
                    0 <= j2 < j && 0 <= l2 < expected@[j2].1@.len() ==> out@.contains_key(
                        (#[trigger] expected@[j2].1@[l2])@.id,
                    ),
                forall|l2: int|
                    0 <= l2 < l ==> out@.contains_key((#[trigger] expected@[j as int].1@[l2])@.id),
                forall|id: Seq<char>| #[trigger]
                    out@.contains_key(id) ==> exists|j2: int, l2: int|
                        0 <= j2 <= j && j2 < n && 0 <= l2 < expected@[j2].1@.len() && (j2 == j
                            ==> l2 < l) && (#[trigger] expected@[j2].1@[l2])@.id == id && out@[id]
                            == expected@[j2].1@[l2]@.public,
            decreases m - l,
        {
            out.insert(images[l].id.clone(), images[l].public);
            l += 1;
        }
        j += 1;
    }
    out
}

} // verus!
