//! The fixture data model the analyzed sample programs serialize: a catalog
//! of businesses with branches, users and products, and a deterministic mock
//! catalog builder.
//!
//! Quantities that outside libraries keep in their own types are held here
//! as plain values: identifiers as 128-bit numbers, timestamps as
//! microseconds, dates as day numbers, coordinates as microdegrees,
//! ownership shares as basis points, and lengths as tenths of a millimeter.

use vstd::prelude::*;

verus! {

/// A unique identifier, as its 128-bit value.
#[derive(Clone, Copy, PartialEq, Eq, Structural)]
pub struct UniqueId {
    pub value: u128,
}

/// A point in time, in microseconds since the epoch.
#[derive(Clone, Copy, PartialEq, Eq, Structural)]
pub struct Timestamp {
    pub micros: i64,
}

/// A calendar date, as days since the common era.
#[derive(Clone, Copy, PartialEq, Eq, Structural)]
pub struct DayNumber {
    pub days: i32,
}

/// The root of the data hierarchy: all businesses, the creation time, and
/// the catalog's own metadata.
pub struct Catalog {
    pub id: UniqueId,
    pub businesses: Vec<Business>,
    pub created_at: Timestamp,
    pub metadata: CatalogMetadata,
}

/// Versioning and regional information about the catalog itself.
pub struct CatalogMetadata {
    /// Semantic version of the catalog data format.
    pub version: String,
    /// Regional code for which the catalog is valid.
    pub region: String,
}

/// One business, with its branches, users and products.
pub struct Business {
    pub id: UniqueId,
    pub name: String,
    pub address: Address,
    pub owner: BusinessOwner,
    pub users: Vec<BusinessUser>,
    pub branches: Vec<Branch>,
    pub products: Vec<Product>,
    pub created_at: Timestamp,
}

/// A business owner and the share held, in basis points of the whole.
pub struct BusinessOwner {
    pub user: User,
    pub ownership_basis_points: u32,
}

/// One branch of a business, with its staff and stock.
pub struct Branch {
    pub id: UniqueId,
    pub name: String,
    pub address: Address,
    pub employees: Vec<BusinessUser>,
    pub inventory: Vec<BranchInventory>,
    pub open: bool,
}

/// The stock of one product at one branch.
pub struct BranchInventory {
    pub product: Product,
    pub stock: u32,
    pub location_code: Option<String>,
}

/// A user in the role of an employee or associate of a business.
pub struct BusinessUser {
    pub user: User,
    pub roles: Vec<Role>,
    pub is_active: bool,
    pub created_at: Timestamp,
}

/// An end user or staff member.
pub struct User {
    pub id: UniqueId,
    pub username: String,
    pub email: String,
    pub created_at: Timestamp,
    pub updated_at: Timestamp,
    pub profile: UserProfile,
    pub settings: Settings,
}

/// A user's personal details.
pub struct UserProfile {
    pub first_name: String,
    pub last_name: String,
    pub date_of_birth: DayNumber,
    pub gender: Gender,
    pub bio: Option<String>,
    pub avatar_url: Option<String>,
    pub home_address: Address,
}

/// A postal address, with optional coordinates.
pub struct Address {
    pub street: String,
    pub city: String,
    pub state: String,
    pub postal_code: String,
    pub country: String,
    pub geo: Option<GeoLocation>,
}

/// A position, in microdegrees of latitude and longitude.
#[derive(Clone, Copy, PartialEq, Eq, Structural)]
pub struct GeoLocation {
    pub latitude_microdeg: i64,
    pub longitude_microdeg: i64,
}

/// A gender identity option.
pub enum Gender {
    Male,
    Female,
    Other,
    PreferNotToSay,
}

/// A product with pricing, metadata, reviews and categories.
pub struct Product {
    pub id: UniqueId,
    pub name: String,
    pub description: Option<String>,
    pub price_cents: u64,
    pub currency: String,
    pub available: bool,
    pub metadata: Option<ProductMetadata>,
    pub reviews: Vec<ProductReview>,
    pub categories: Vec<Category>,
}

/// Extra product details.
pub struct ProductMetadata {
    pub sku: Option<String>,
    pub categories: Vec<String>,
    pub weight_grams: Option<u32>,
    pub dimensions: Option<ProductDimensions>,
}

/// A product's physical size, in tenths of a millimeter.
#[derive(Clone, Copy, PartialEq, Eq, Structural)]
pub struct ProductDimensions {
    pub length_tenth_mm: Option<u32>,
    pub width_tenth_mm: Option<u32>,
    pub height_tenth_mm: Option<u32>,
}

/// A user's review of a product.
pub struct ProductReview {
    pub id: UniqueId,
    pub reviewer: UserSummary,
    pub rating: u8,
    pub text: Option<String>,
    pub created_at: Timestamp,
}

/// A product category; the optional parent link forms a tree reaching
/// rootward.
pub struct Category {
    pub id: UniqueId,
    pub name: String,
    pub description: Option<String>,
    pub parent: Option<Box<Category>>,
}

/// A brief user reference.
pub struct UserSummary {
    pub id: UniqueId,
    pub username: String,
    pub avatar_url: Option<String>,
}

/// A role for access control within a business.
pub struct Role {
    pub id: UniqueId,
    pub name: String,
    pub description: Option<String>,
    pub permissions: Vec<Permission>,
}

/// A fine-grained permission of a role.
pub struct Permission {
    pub id: UniqueId,
    pub name: String,
    pub description: Option<String>,
}

/// A user's interface and notification settings.
pub struct Settings {
    pub user_id: UniqueId,
    pub email_notifications: bool,
    pub push_notifications: bool,
    pub theme: Theme,
    pub language: String,
}

/// An interface appearance option.
pub enum Theme {
    Light,
    Dark,
    System,
}

// ---------------------------------------------------------------------------
// Field-level equality of catalog values
// ---------------------------------------------------------------------------

/// Two optional texts with the same content.
pub open spec fn opt_str_eq(a: Option<String>, b: Option<String>) -> bool {
    match a {
        Some(x) => (match b {
            Some(y) => x@ == y@,
            None => false,
        }),
        None => b is None,
    }
}

/// An optional text holding exactly the given content.
pub open spec fn opt_str_is(a: Option<String>, s: Seq<char>) -> bool {
    match a {
        Some(x) => x@ == s,
        None => false,
    }
}

/// Two user references with the same fields.
pub open spec fn summary_eq(a: UserSummary, b: UserSummary) -> bool {
    a.id == b.id && a.username@ == b.username@ && opt_str_eq(a.avatar_url, b.avatar_url)
}

/// Two reviews with the same fields.
pub open spec fn review_eq(a: ProductReview, b: ProductReview) -> bool {
    a.id == b.id && summary_eq(a.reviewer, b.reviewer) && a.rating == b.rating && opt_str_eq(
        a.text,
        b.text,
    ) && a.created_at == b.created_at
}

/// Two optional product metadata values with the same fields.
pub open spec fn meta_eq(a: Option<ProductMetadata>, b: Option<ProductMetadata>) -> bool {
    match a {
        Some(x) => (match b {
            Some(y) => opt_str_eq(x.sku, y.sku) && x.categories@.len() == y.categories@.len() && (
            forall|k: int|
                0 <= k < x.categories@.len() ==> (#[trigger] x.categories@[k])@
                    == y.categories@[k]@) && x.weight_grams == y.weight_grams && x.dimensions
                == y.dimensions,
            None => false,
        }),
        None => b is None,
    }
}

/// Two categories with the same fields, parent chains included.
pub open spec fn category_eq(a: Category, b: Category) -> bool
    decreases a,
{
    &&& a.id == b.id
    &&& a.name@ == b.name@
    &&& opt_str_eq(a.description, b.description)
    &&& (match a.parent {
        Some(pa) => (match b.parent {
            Some(pb) => category_eq(*pa, *pb),
            None => false,
        }),
        None => b.parent is None,
    })
}

/// Two products with the same fields, identifiers and timestamps included:
/// what a copy preserves.
pub open spec fn product_eq(a: Product, b: Product) -> bool {
    &&& a.id == b.id
    &&& a.name@ == b.name@
    &&& opt_str_eq(a.description, b.description)
    &&& a.price_cents == b.price_cents
    &&& a.currency@ == b.currency@
    &&& a.available == b.available
    &&& meta_eq(a.metadata, b.metadata)
    &&& a.reviews@.len() == b.reviews@.len()
    &&& forall|k: int|
        0 <= k < a.reviews@.len() ==> review_eq(#[trigger] a.reviews@[k], b.reviews@[k])
    &&& a.categories@.len() == b.categories@.len()
    &&& forall|k: int|
        0 <= k < a.categories@.len() ==> category_eq(#[trigger] a.categories@[k], b.categories@[k])
}

/// The root of a category chain, reached by following the parent links.
pub open spec fn category_root(c: Category) -> Category
    decreases c,
{
    match c.parent {
        Some(p) => category_root(*p),
        None => c,
    }
}

/// How deep a category chain reaches through its parent links.
pub open spec fn category_depth(c: Category) -> nat
    decreases c,
{
    match c.parent {
        Some(p) => 1 + category_depth(*p),
        None => 0,
    }
}

// ---------------------------------------------------------------------------
// Copies
// ---------------------------------------------------------------------------

fn copy_opt_string(o: &Option<String>) -> (r: Option<String>)
    ensures
        opt_str_eq(r, *o),
{
    match o {
        Some(s) => Some(s.clone()),
        None => None,
    }
}

fn copy_summary(s: &UserSummary) -> (r: UserSummary)
    ensures
        summary_eq(r, *s),
{
    UserSummary {
        id: s.id,
        username: s.username.clone(),
        avatar_url: copy_opt_string(&s.avatar_url),
    }
}

fn copy_review(v: &ProductReview) -> (r: ProductReview)
    ensures
        review_eq(r, *v),
{
    ProductReview {
        id: v.id,
        reviewer: copy_summary(&v.reviewer),
        rating: v.rating,
        text: copy_opt_string(&v.text),
        created_at: v.created_at,
    }
}

#[verifier::loop_isolation(false)]
fn copy_meta(m: &Option<ProductMetadata>) -> (r: Option<ProductMetadata>)
    ensures
        meta_eq(r, *m),
{
    match m {
        Some(x) => {
            let mut categories: Vec<String> = Vec::new();
            let mut k: usize = 0;
            while k < x.categories.len()
                invariant
                    0 <= k <= x.categories@.len(),
                    categories@.len() == k,
                    forall|t: int|
                        0 <= t < k ==> (#[trigger] categories@[t])@ == x.categories@[t]@,
                decreases x.categories@.len() - k,
            {
                categories.push(x.categories[k].clone());
                k += 1;
            }
            Some(
                ProductMetadata {
                    sku: copy_opt_string(&x.sku),
                    categories,
                    weight_grams: x.weight_grams,
                    dimensions: x.dimensions,
                },
            )
        },
        None => None,
    }
}

fn copy_category(c: &Category) -> (r: Category)
    ensures
        category_eq(r, *c),
    decreases *c,
{
    let parent: Option<Box<Category>> = match &c.parent {
        Some(p) => Some(Box::new(copy_category(&**p))),
        None => None,
    };
    Category {
        id: c.id,
        name: c.name.clone(),
        description: copy_opt_string(&c.description),
        parent,
    }
}

/// Copy a product field by field, identifiers and timestamps included, as
/// the sample data does when it stocks the branch with the catalog's own
/// products.
#[verifier::loop_isolation(false)]
pub fn copy_product(p: &Product) -> (r: Product)
    ensures
        product_eq(r, *p),
{
    let mut reviews: Vec<ProductReview> = Vec::new();
    let mut k: usize = 0;
    while k < p.reviews.len()
        invariant
            0 <= k <= p.reviews@.len(),
            reviews@.len() == k,
            forall|t: int| 0 <= t < k ==> review_eq(#[trigger] reviews@[t], p.reviews@[t]),
        decreases p.reviews@.len() - k,
    {
        reviews.push(copy_review(&p.reviews[k]));
        k += 1;
    }
    let mut categories: Vec<Category> = Vec::new();
    let mut t: usize = 0;
    while t < p.categories.len()
        invariant
            0 <= t <= p.categories@.len(),
            categories@.len() == t,
            forall|x: int| 0 <= x < t ==> category_eq(#[trigger] categories@[x], p.categories@[x]),
        decreases p.categories@.len() - t,
    {
        categories.push(copy_category(&p.categories[t]));
        t += 1;
    }
    Product {
        id: p.id,
        name: p.name.clone(),
        description: copy_opt_string(&p.description),
        price_cents: p.price_cents,
        currency: p.currency.clone(),
        available: p.available,
        metadata: copy_meta(&p.metadata),
        reviews,
        categories,
    }
}

// ---------------------------------------------------------------------------
// The mock catalog
// ---------------------------------------------------------------------------

/// Relies on uuid::Uuid::new_v4: a fresh random identifier. Nothing is
/// promised of the value.
#[verifier::external_body]
fn fresh_id() -> (r: UniqueId) {
    UniqueId { value: uuid::Uuid::new_v4().as_u128() }
}

/// Relies on chrono::Utc::now and its microsecond timestamp: the current
/// time. Nothing is promised of the value.
#[verifier::external_body]
fn now_micros() -> (r: Timestamp) {
    Timestamp { micros: chrono::Utc::now().timestamp_micros() }
}

/// Relies on chrono::Utc::now and chrono's day count from the common era:
/// today's date. Nothing is promised of the value.
#[verifier::external_body]
fn today_days() -> (r: DayNumber) {
    DayNumber { days: chrono::Datelike::num_days_from_ce(&chrono::Utc::now().date_naive()) }
}

/// The fixed mock address, field by field.
pub open spec fn mock_address_like(a: Address) -> bool {
    &&& a.street@ == "123 Main St."@
    &&& a.city@ == "Metropolis"@
    &&& a.state@ == "Stateville"@
    &&& a.postal_code@ == "12345"@
    &&& a.country@ == "Countryland"@
    &&& (match a.geo {
        Some(g) => g.latitude_microdeg == 51_000_000 && g.longitude_microdeg == -100_000,
        None => false,
    })
}

/// The fixed mock employee role, field by field.
pub open spec fn mock_role_like(r: Role) -> bool {
    &&& r.name@ == "Employee"@
    &&& opt_str_is(r.description, "Regular employee role"@)
    &&& r.permissions@.len() == 1
    &&& r.permissions@[0].name@ == "access_dashboard"@
    &&& opt_str_is(r.permissions@[0].description, "Can access the dashboard"@)
}

/// The mock user of one index: every field but the identifiers and the
/// clock-read dates is a fixed function of the index. Even indices read as
/// male with the light theme, odd ones as female with the dark theme.
pub open spec fn mock_user_like(u: User, idx: int) -> bool {
    &&& u.username@ == "user"@ + crate::numfmt::spec_digits(idx)
    &&& u.email@ == "user"@ + crate::numfmt::spec_digits(idx) + "@email.com"@
    &&& u.profile.first_name@ == "First"@ + crate::numfmt::spec_digits(idx)
    &&& u.profile.last_name@ == "Last"@ + crate::numfmt::spec_digits(idx)
    &&& (idx % 2 == 0) == (u.profile.gender is Male)
    &&& (idx % 2 != 0) == (u.profile.gender is Female)
    &&& opt_str_is(u.profile.bio, "Bio of user "@ + crate::numfmt::spec_digits(idx))
    &&& u.profile.avatar_url is None
    &&& mock_address_like(u.profile.home_address)
    &&& u.settings.email_notifications
    &&& u.settings.push_notifications == (idx % 2 == 0)
    &&& (idx % 2 == 0) == (u.settings.theme is Light)
    &&& (idx % 2 != 0) == (u.settings.theme is Dark)
    &&& u.settings.language@ == "en-US"@
}

/// The mock product of one index: every field but the identifiers and the
/// clock-read timestamp is a fixed function of the index. Its one category
/// chain is `idx` subcategories over the root node.
pub open spec fn mock_product_like(p: Product, idx: int) -> bool {
    &&& p.name@ == "Product"@ + crate::numfmt::spec_digits(idx)
    &&& opt_str_is(p.description, "Description for product "@ + crate::numfmt::spec_digits(idx))
    &&& p.price_cents == 1000 + 100 * idx
    &&& p.currency@ == "USD"@
    &&& p.available
    &&& (match p.metadata {
        Some(m) => {
            &&& opt_str_is(m.sku, "SKU"@ + crate::numfmt::spec_digits(idx))
            &&& m.categories@.len() == 2
            &&& m.categories@[0]@ == "Electronics"@
            &&& m.categories@[1]@ == "Gadgets"@
            &&& (match m.weight_grams {
                Some(w) => w == 500 + 10 * idx,
                None => false,
            })
            &&& (match m.dimensions {
                Some(d) => (match d.length_tenth_mm {
                    Some(l) => l == 1000 + 10 * idx,
                    None => false,
                }) && (match d.width_tenth_mm {
                    Some(w) => w == 500 + 10 * idx,
                    None => false,
                }) && (match d.height_tenth_mm {
                    Some(h) => h == 255 + 10 * idx,
                    None => false,
                }),
                None => false,
            })
        },
        None => false,
    })
    &&& p.reviews@.len() == 1
    &&& p.reviews@[0].rating == 4 + (idx % 2)
    &&& opt_str_is(p.reviews@[0].text, "Review for product "@ + crate::numfmt::spec_digits(idx))
    &&& p.reviews@[0].reviewer.username@ == "user"@ + crate::numfmt::spec_digits(idx)
    &&& p.reviews@[0].reviewer.avatar_url is None
    &&& p.categories@.len() == 1
    &&& category_depth(p.categories@[0]) == idx
    &&& category_root(p.categories@[0]).name@ == "Root Category"@
    &&& category_root(p.categories@[0]).parent is None
}

/// The fixed mock address.
fn mock_address() -> (a: Address)
    ensures
        mock_address_like(a),
{
    Address {
        street: "123 Main St.".to_owned(),
        city: "Metropolis".to_owned(),
        state: "Stateville".to_owned(),
        postal_code: "12345".to_owned(),
        country: "Countryland".to_owned(),
        geo: Some(GeoLocation { latitude_microdeg: 51_000_000, longitude_microdeg: -100_000 }),
    }
}

/// The fixed mock employee role, with one permission.
fn mock_role() -> (r: Role)
    ensures
        mock_role_like(r),
{
    let mut permissions: Vec<Permission> = Vec::new();
    permissions.push(
        Permission {
            id: fresh_id(),
            name: "access_dashboard".to_owned(),
            description: Some("Can access the dashboard".to_owned()),
        },
    );
    Role {
        id: fresh_id(),
        name: "Employee".to_owned(),
        description: Some("Regular employee role".to_owned()),
        permissions,
    }
}

/// A mock user of one index.
fn mock_user(idx: u32) -> (u: User)
    ensures
        mock_user_like(u, idx as int),
{
    let name_num = crate::numfmt::fmt_u64(idx as u64);
    User {
        id: fresh_id(),
        username: "user".to_owned().concat(name_num.as_str()),
        email: "user".to_owned().concat(name_num.as_str()).concat("@email.com"),
        created_at: now_micros(),
        updated_at: now_micros(),
        profile: UserProfile {
            first_name: "First".to_owned().concat(name_num.as_str()),
            last_name: "Last".to_owned().concat(name_num.as_str()),
            date_of_birth: today_days(),
            gender: if idx % 2 == 0 {
                Gender::Male
            } else {
                Gender::Female
            },
            bio: Some("Bio of user ".to_owned().concat(name_num.as_str())),
            avatar_url: None,
            home_address: mock_address(),
        },
        settings: Settings {
            user_id: fresh_id(),
            email_notifications: true,
            push_notifications: idx % 2 == 0,
            theme: if idx % 2 == 0 {
                Theme::Light
            } else {
                Theme::Dark
            },
            language: "en-US".to_owned(),
        },
    }
}

/// A brief mock user reference.
fn mock_user_summary(idx: u32) -> (s: UserSummary)
    ensures
        s.username@ == "user"@ + crate::numfmt::spec_digits(idx as int),
        s.avatar_url is None,
{
    let name_num = crate::numfmt::fmt_u64(idx as u64);
    UserSummary {
        id: fresh_id(),
        username: "user".to_owned().concat(name_num.as_str()),
        avatar_url: None,
    }
}

/// A mock category chain: `id` subcategories over one root node.
fn mock_category(id: u8) -> (c: Category)
    ensures
        category_depth(c) == id,
        category_root(c).name@ == "Root Category"@,
        category_root(c).parent is None,
    decreases id,
{
    if id == 0 {
        Category {
            id: fresh_id(),
            name: "Root Category".to_owned(),
            description: Some("Top of the tree".to_owned()),
            parent: None,
        }
    } else {
        let parent = mock_category(id - 1);
        let name_num = crate::numfmt::fmt_u64(id as u64);
        Category {
            id: fresh_id(),
            name: "Subcategory ".to_owned().concat(name_num.as_str()),
            description: Some("Subcategory number ".to_owned().concat(name_num.as_str())),
            parent: Some(Box::new(parent)),
        }
    }
}

/// The mock product of one index.
fn mock_product(idx: u32) -> (p: Product)
    requires
        idx <= 255,
    ensures
        mock_product_like(p, idx as int),
{
    let name_num = crate::numfmt::fmt_u64(idx as u64);
    let mut reviews: Vec<ProductReview> = Vec::new();
    reviews.push(
        ProductReview {
            id: fresh_id(),
            reviewer: mock_user_summary(idx),
            rating: 4 + ((idx % 2) as u8),
            text: Some("Review for product ".to_owned().concat(name_num.as_str())),
            created_at: now_micros(),
        },
    );
    let mut categories: Vec<Category> = Vec::new();
    categories.push(mock_category(idx as u8));
    let mut meta_categories: Vec<String> = Vec::new();
    meta_categories.push("Electronics".to_owned());
    meta_categories.push("Gadgets".to_owned());
    Product {
        id: fresh_id(),
        name: "Product".to_owned().concat(name_num.as_str()),
        description: Some("Description for product ".to_owned().concat(name_num.as_str())),
        price_cents: 1000 + 100 * (idx as u64),
        currency: "USD".to_owned(),
        available: true,
        metadata: Some(
            ProductMetadata {
                sku: Some("SKU".to_owned().concat(name_num.as_str())),
                categories: meta_categories,
                weight_grams: Some(500 + 10 * idx),
                dimensions: Some(
                    ProductDimensions {
                        length_tenth_mm: Some(1000 + 10 * idx),
                        width_tenth_mm: Some(500 + 10 * idx),
                        height_tenth_mm: Some(255 + 10 * idx),
                    },
                ),
            },
        ),
        reviews,
        categories,
    }
}

/// Build the mock catalog: one business named "Awesome Business" with two
/// business users, one fully-owned owner, one open branch staffed by the
/// same two users and stocking all three products at fifty each, and
/// versioned metadata. Every field except the fresh identifiers and the
/// clock-read dates is fixed by the clauses below.
pub fn generate_mock_catalog() -> (c: Catalog)
    ensures
        c.metadata.version@ == "1.0.1!"@,
        c.metadata.region@ == "US"@,
        c.businesses@.len() == 1,
        c.businesses@[0].name@ == "Awesome Business"@,
        mock_address_like(c.businesses@[0].address),
        c.businesses@[0].owner.ownership_basis_points == 10000,
        mock_user_like(c.businesses@[0].owner.user, 100),
        c.businesses@[0].users@.len() == 2,
        forall|k: int|
            0 <= k < 2 ==> mock_user_like((#[trigger] c.businesses@[0].users@[k]).user, k + 1)
                && c.businesses@[0].users@[k].is_active && c.businesses@[0].users@[k].roles@.len()
                == 1 && mock_role_like(c.businesses@[0].users@[k].roles@[0]),
        c.businesses@[0].branches@.len() == 1,
        c.businesses@[0].branches@[0].open,
        c.businesses@[0].branches@[0].name@ == "Central Branch"@,
        mock_address_like(c.businesses@[0].branches@[0].address),
        c.businesses@[0].branches@[0].employees@.len() == 2,
        forall|k: int|
            0 <= k < 2 ==> mock_user_like(
                (#[trigger] c.businesses@[0].branches@[0].employees@[k]).user,
                k + 1,
            ) && c.businesses@[0].branches@[0].employees@[k].is_active && c.businesses@[0].branches@[
            0].employees@[k].roles@.len() == 1 && mock_role_like(
                c.businesses@[0].branches@[0].employees@[k].roles@[0],
            ),
        c.businesses@[0].products@.len() == 3,
        forall|k: int|
            0 <= k < 3 ==> mock_product_like(#[trigger] c.businesses@[0].products@[k], k + 1),
        c.businesses@[0].branches@[0].inventory@.len() == 3,
        forall|k: int|
            0 <= k < 3 ==> (#[trigger] c.businesses@[0].branches@[0].inventory@[k]).stock == 50
                && opt_str_is(c.businesses@[0].branches@[0].inventory@[k].location_code, "A-01"@)
                && product_eq(
                c.businesses@[0].branches@[0].inventory@[k].product,
                c.businesses@[0].products@[k],
            ),
{
    let mut business_users: Vec<BusinessUser> = Vec::new();
    let mut i: u32 = 1;
    while i <= 2
        invariant
            1 <= i <= 3,
            business_users@.len() == i - 1,
            forall|k: int|
                0 <= k < i - 1 ==> mock_user_like((#[trigger] business_users@[k]).user, k + 1)
                    && business_users@[k].is_active && business_users@[k].roles@.len() == 1
                    && mock_role_like(business_users@[k].roles@[0]),
        decreases 3 - i,
    {
        let mut roles: Vec<Role> = Vec::new();
        roles.push(mock_role());
        business_users.push(
            BusinessUser { user: mock_user(i), roles, is_active: true, created_at: now_micros() },
        );
        i += 1;
    }
    let owner = BusinessOwner { user: mock_user(100), ownership_basis_points: 10000 };
    let mut products: Vec<Product> = Vec::new();
    let mut inventory: Vec<BranchInventory> = Vec::new();
    let mut j: u32 = 1;
    while j <= 3
        invariant
            1 <= j <= 4,
            products@.len() == j - 1,
            inventory@.len() == j - 1,
            forall|k: int| 0 <= k < j - 1 ==> mock_product_like(#[trigger] products@[k], k + 1),
            forall|k: int|
                0 <= k < j - 1 ==> (#[trigger] inventory@[k]).stock == 50 && opt_str_is(
                    inventory@[k].location_code,
                    "A-01"@,
                ) && product_eq(inventory@[k].product, products@[k]),
        decreases 4 - j,
    {
        let p = mock_product(j);
        let stocked = copy_product(&p);
        inventory.push(
            BranchInventory { product: stocked, stock: 50, location_code: Some("A-01".to_owned()) },
        );
        products.push(p);
        j += 1;
    }
    let mut employees: Vec<BusinessUser> = Vec::new();
    let mut roles_a: Vec<Role> = Vec::new();
    roles_a.push(mock_role());
    employees.push(
        BusinessUser {
            user: mock_user(1),
            roles: roles_a,
            is_active: true,
            created_at: now_micros(),
        },
    );
    let mut roles_b: Vec<Role> = Vec::new();
    roles_b.push(mock_role());
    employees.push(
        BusinessUser {
            user: mock_user(2),
            roles: roles_b,
            is_active: true,
            created_at: now_micros(),
        },
    );
    let branch = Branch {
        id: fresh_id(),
        name: "Central Branch".to_owned(),
        address: mock_address(),
        employees,
        inventory,
        open: true,
    };
    let mut branches: Vec<Branch> = Vec::new();
    branches.push(branch);
    let business = Business {
        id: fresh_id(),
        name: "Awesome Business".to_owned(),
        address: mock_address(),
        owner,
        users: business_users,
        branches,
        products,
        created_at: now_micros(),
    };
    let mut businesses: Vec<Business> = Vec::new();
    businesses.push(business);
    Catalog {
        id: fresh_id(),
        businesses,
        created_at: now_micros(),
        metadata: CatalogMetadata { version: "1.0.1!".to_owned(), region: "US".to_owned() },
    }
}

} // verus!
