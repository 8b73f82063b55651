//! Crafting helper projects: their records, what is written for them, the
//! portable project code, and material availability across inventory and
//! storage.
use vstd::prelude::*;

use crate::text::{
    chars_of, decimal, decimal_chars, join3, push_all, signed_decimal, signed_decimal_chars, string_of,
    trim, trimmed,
};
use vstd::utf8::{decode_utf8, encode_utf8, valid_utf8};

verus! {

// ───────────────────────────── records ─────────────────────────────

/// A new project as the user entered it.
pub struct CreateProjectInput {
    pub name: String,
    pub notes: Option<String>,
    pub group_name: Option<String>,
    pub fee_config: Option<String>,
}

/// New values for an existing project.
pub struct UpdateProjectInput {
    pub id: i64,
    pub name: String,
    pub notes: String,
    pub group_name: Option<String>,
    pub fee_config: Option<String>,
    pub customer_provides: Option<String>,
}

/// A recipe added to a project.
pub struct AddProjectEntryInput {
    pub project_id: i64,
    pub recipe_id: i64,
    pub recipe_name: String,
    pub quantity: i32,
    pub target_stock: Option<i32>,
    /// Item ids pinned to the recipe's variable slots, in slot order; absent
    /// or empty resolves the slots generically.
    pub slot_item_ids: Option<Vec<i64>>,
}

/// New values for a project entry.
pub struct UpdateProjectEntryInput {
    pub id: i64,
    pub quantity: i32,
    pub expanded_ingredient_ids: Vec<i64>,
    pub target_stock: Option<i32>,
}

/// New expansions for one entry of a batch update.
pub struct BatchUpdateExpansionsEntry {
    pub id: i64,
    pub expanded_ingredient_ids: Vec<i64>,
}

/// A project's entries in their new order.
pub struct ReorderEntriesInput {
    pub project_id: i64,
    pub entry_ids: Vec<i64>,
}

/// A project with its entries.
pub struct CraftingProject {
    pub id: i64,
    pub name: String,
    pub notes: String,
    pub group_name: Option<String>,
    pub fee_config: String,
    pub customer_provides: String,
    pub created_at: String,
    pub updated_at: String,
    pub entries: Vec<CraftingProjectEntry>,
}

/// One recipe of a project.
pub struct CraftingProjectEntry {
    pub id: i64,
    pub project_id: i64,
    pub recipe_id: i64,
    pub recipe_name: String,
    pub quantity: i32,
    pub sort_order: i32,
    pub expanded_ingredient_ids: Vec<i64>,
    pub target_stock: Option<i32>,
    /// Item ids pinned to the recipe's variable slots, in slot order.
    pub slot_item_ids: Vec<i64>,
}

/// A project in the project list.
pub struct CraftingProjectSummary {
    pub id: i64,
    pub name: String,
    pub notes: String,
    pub group_name: Option<String>,
    pub created_at: String,
    pub updated_at: String,
    pub entry_count: i64,
}

/// Quantity of an item in one storage vault.
pub struct VaultStock {
    pub vault_name: String,
    pub quantity: i64,
}

/// How much of an item the character has, carried and stored.
pub struct MaterialAvailability {
    pub item_type_id: i64,
    pub item_name: String,
    pub inventory_quantity: i64,
    pub storage_quantity: i64,
    pub vault_breakdown: Vec<VaultStock>,
    pub total_available: i64,
}

/// Work orders of the latest character snapshot.
pub struct WorkOrderData {
    pub active: Vec<String>,
    pub completed: Vec<String>,
    /// Type ids of work order scroll items found in inventory or storage.
    pub inventory_item_ids: Vec<u32>,
}

/// The portable form of a project, shared between players as a code.
pub struct ExportedProject {
    pub version: u32,
    pub name: String,
    pub notes: String,
    pub group_name: Option<String>,
    pub fee_config: Option<String>,
    pub customer_provides: Option<String>,
    pub entries: Vec<ExportedProjectEntry>,
}

/// One entry of a portable project.
pub struct ExportedProjectEntry {
    pub recipe_id: i64,
    pub recipe_name: String,
    pub quantity: i32,
    pub sort_order: i32,
    pub expanded_ingredient_ids: Vec<i64>,
    pub target_stock: Option<i32>,
    pub slot_item_ids: Vec<i64>,
}

/// The fee configuration of a project that was given none.
pub const DEFAULT_FEE_CONFIG: &'static str = "{\"per_craft_fee\":0,\"material_pct\":0,\"material_pct_basis\":\"total\",\"flat_fee\":0}";

/// The customer-provided materials of an imported project that states none.
pub const EMPTY_CUSTOMER_PROVIDES: &'static str = "{}";

/// The only portable project version this library reads.
pub const PROJECT_VERSION: u32 = 1;

// ───────────────────────────── small decisions ─────────────────────────────

/// `Some` text, or `default`.
pub open spec fn text_or(o: Option<String>, default: Seq<char>) -> Seq<char> {
    match o {
        Some(s) => s@,
        None => default,
    }
}

fn string_or(o: Option<String>, default: &str) -> (s: String)
    ensures
        s@ == text_or(o, default@),
{
    match o {
        Some(s) => s,
        None => default.to_owned(),
    }
}

impl CreateProjectInput {
    /// The values a new project row gets: its name, its notes (empty when
    /// absent), its group and its fee configuration (the default when
    /// absent).
    pub fn row_values(self) -> (r: (String, String, Option<String>, String))
        ensures
            r.0 == self.name,
            r.1@ == text_or(self.notes, Seq::empty()),
            r.2 == self.group_name,
            r.3@ == text_or(self.fee_config, DEFAULT_FEE_CONFIG@),
    {
        let notes = match self.notes {
            Some(n) => n,
            None => String::new(),
        };
        (self.name, notes, self.group_name, string_or(self.fee_config, DEFAULT_FEE_CONFIG))
    }
}

/// The name of a duplicated project.
pub fn copy_name(name: &str) -> (r: String)
    ensures
        r@ == name@ + " (copy)"@,
{
    let mut v = chars_of(name);
    let suffix = chars_of(" (copy)");
    push_all(&mut v, &suffix);
    string_of(&v)
}

/// The new sort order of each listed entry: its position in the list.
pub fn sort_assignments(entry_ids: &[i64]) -> (r: Vec<(i32, i64)>)
    requires
        entry_ids@.len() <= i32::MAX + 1,
    ensures
        r@.len() == entry_ids@.len(),
        forall|i: int| 0 <= i < r@.len() ==> #[trigger] r@[i] == (i as i32, entry_ids@[i]),
{
    let mut r: Vec<(i32, i64)> = Vec::new();
    let mut i: usize = 0;
    while i < entry_ids.len()
        invariant
            i <= entry_ids@.len() <= i32::MAX + 1,
            r@.len() == i,
            forall|j: int| 0 <= j < i ==> #[trigger] r@[j] == (j as i32, entry_ids@[j]),
        decreases entry_ids@.len() - i,
    {
        r.push((i as i32, entry_ids[i]));
        i = i + 1;
    }
    r
}

// ───────────────────────────── id lists ─────────────────────────────

/// The JSON text of a list of ids: `[1,2,3]`.
pub open spec fn id_list_json(ids: Seq<i64>) -> Seq<char> {
    seq!['['] + joined_ids(ids) + seq![']']
}

/// The ids in decimal, separated by commas.
pub open spec fn joined_ids(ids: Seq<i64>) -> Seq<char>
    decreases ids.len(),
{
    if ids.len() == 0 {
        Seq::empty()
    } else if ids.len() == 1 {
        signed_decimal(ids[0] as int)
    } else {
        joined_ids(ids.drop_last()) + seq![','] + signed_decimal(ids.last() as int)
    }
}

/// The JSON text stored for a list of ids (what `serde_json::to_string`
/// writes for a `Vec<i64>`).
pub fn ids_to_json(ids: &[i64]) -> (s: String)
    ensures
        s@ == id_list_json(ids@),
{
    let mut v: Vec<char> = Vec::new();
    v.push('[');
    let mut i: usize = 0;
    assert(ids@.take(0) =~= Seq::<i64>::empty());
    while i < ids.len()
        invariant
            i <= ids@.len(),
            v@ == seq!['['] + joined_ids(ids@.take(i as int)),
        decreases ids@.len() - i,
    {
        proof {
            assert(ids@.take(i + 1).drop_last() =~= ids@.take(i as int));
            assert(ids@.take(i + 1).last() == ids@[i as int]);
        }
        if i > 0 {
            v.push(',');
        }
        let d = signed_decimal_chars(ids[i]);
        push_all(&mut v, &d);
        proof {
            if i == 0 {
                assert(ids@.take(1) =~= seq![ids@[0]]);
            }
        }
        i = i + 1;
    }
    assert(ids@.take(ids@.len() as int) =~= ids@);
    v.push(']');
    string_of(&v)
}

/// What `serde_json::from_str::<Vec<i64>>` reads from a text, if it accepts
/// it.
pub uninterp spec fn json_id_list(text: Seq<char>) -> Option<Seq<i64>>;

/// `serde_json::from_str::<Vec<i64>>`. Its result is named
/// [`json_id_list`]. Of the texts serde_json accepts, the contract states
/// only that a JSON array of integers written as [`id_list_json`] writes
/// them (no spaces, plain decimal) reads back as those integers.
#[verifier::external_body]
fn parse_id_list(text: &str) -> (r: Option<Vec<i64>>)
    ensures
        match r {
            Some(v) => json_id_list(text@) == Some(v@),
            None => json_id_list(text@) is None,
        },
        forall|ids: Seq<i64>| #[trigger] id_list_json(ids) == text@ ==> r is Some && r->0@ == ids,
{
    serde_json::from_str::<Vec<i64>>(text).ok()
}

/// The ids stored as JSON text; text that is no list of ids reads as none.
/// The text [`ids_to_json`] writes for a list reads back as that list.
pub fn ids_from_json(text: &str) -> (r: Vec<i64>)
    ensures
        r@ == match json_id_list(text@) {
            Some(ids) => ids,
            None => Seq::empty(),
        },
        forall|ids: Seq<i64>| #[trigger] id_list_json(ids) == text@ ==> r@ == ids,
{
    match parse_id_list(text) {
        Some(v) => v,
        None => Vec::new(),
    }
}

impl AddProjectEntryInput {
    /// The JSON stored for the entry's pinned slot items (an empty list
    /// when none are given).
    pub fn slot_ids_json(&self) -> (s: String)
        ensures
            s@ == id_list_json(
                match self.slot_item_ids {
                    Some(v) => v@,
                    None => Seq::empty(),
                },
            ),
    {
        match &self.slot_item_ids {
            Some(v) => ids_to_json(v.as_slice()),
            None => {
                let empty: Vec<i64> = Vec::new();
                ids_to_json(empty.as_slice())
            },
        }
    }
}

// ───────────────────────────── project codes ─────────────────────────────

/// Standard base64 (with padding) of `bytes`, as `base64`'s `STANDARD`
/// engine writes it.
pub uninterp spec fn base64_standard(bytes: Seq<u8>) -> Seq<char>;

/// What `base64`'s `STANDARD` engine decodes from a text, if it accepts it.
pub uninterp spec fn base64_standard_decoded(text: Seq<char>) -> Option<Seq<u8>>;

/// A character of the standard base64 alphabet, or its `=` padding.
pub open spec fn is_base64_char(c: char) -> bool {
    ||| 'A' <= c <= 'Z'
    ||| 'a' <= c <= 'z'
    ||| '0' <= c <= '9'
    ||| c == '+'
    ||| c == '/'
    ||| c == '='
}

/// `base64::engine::general_purpose::STANDARD.encode`. Its result is named
/// [`base64_standard`]; the contract also states that the text is made of
/// the standard alphabet and `=`, and that the same engine decodes it back
/// to `bytes`.
#[verifier::external_body]
fn encode_base64(bytes: &[u8]) -> (s: String)
    ensures
        s@ == base64_standard(bytes@),
        forall|i: int| 0 <= i < s@.len() ==> is_base64_char(#[trigger] s@[i]),
        base64_standard_decoded(s@) == Some(bytes@),
{
    base64::Engine::encode(&base64::engine::general_purpose::STANDARD, bytes)
}

/// `base64::engine::general_purpose::STANDARD.decode`, the error rendered as
/// text. Its result is named [`base64_standard_decoded`]; the error text is
/// not stated.
#[verifier::external_body]
fn decode_base64(text: &str) -> (r: Result<Vec<u8>, String>)
    ensures
        match r {
            Ok(b) => base64_standard_decoded(text@) == Some(b@),
            Err(_) => base64_standard_decoded(text@) is None,
        },
{
    base64::Engine::decode(&base64::engine::general_purpose::STANDARD, text).map_err(
        |e| format!("{e}"),
    )
}

/// `String::from_utf8` of std, the error rendered as text: the text the
/// bytes encode when they are valid UTF-8, an error otherwise. The error
/// text is not stated.
#[verifier::external_body]
fn text_from_utf8(bytes: Vec<u8>) -> (r: Result<String, String>)
    ensures
        match r {
            Ok(s) => valid_utf8(bytes@) && s@ == decode_utf8(bytes@),
            Err(_) => !valid_utf8(bytes@),
        },
{
    String::from_utf8(bytes).map_err(|e| format!("{e}"))
}

/// The JSON text a share code holds: the code, trimmed, read as standard
/// base64, its bytes read as UTF-8; none when either step fails.
pub open spec fn code_contents(code: Seq<char>) -> Option<Seq<char>> {
    match base64_standard_decoded(trim(code)) {
        Some(bytes) => if valid_utf8(bytes) {
            Some(decode_utf8(bytes))
        } else {
            None
        },
        None => None,
    }
}

proof fn lemma_trim_no_white(s: Seq<char>)
    requires
        forall|i: int| 0 <= i < s.len() ==> is_base64_char(#[trigger] s[i]),
    ensures
        trim(s) == s,
{
    if s.len() > 0 {
        assert(is_base64_char(s[0]));
        assert(is_base64_char(s.last()));
    }
}

/// The share code of a project: the UTF-8 bytes of its JSON text in
/// standard base64. The code holds exactly that JSON text again.
pub fn project_code(json: &str) -> (code: String)
    ensures
        code@ == base64_standard(encode_utf8(json@)),
        code_contents(code@) == Some(json@),
{
    let bytes = json.as_bytes();
    let code = encode_base64(bytes);
    proof {
        lemma_trim_no_white(code@);
        vstd::utf8::encode_utf8_valid_utf8(json@);
        vstd::utf8::encode_utf8_decode_utf8(json@);
    }
    code
}

/// Refusal of a code that is no base64.
pub open spec fn invalid_code_message(detail: Seq<char>) -> Seq<char> {
    "Invalid project code: "@ + detail
}

/// Refusal of a code whose bytes are no UTF-8.
pub open spec fn invalid_utf8_message(detail: Seq<char>) -> Seq<char> {
    "Invalid UTF-8: "@ + detail
}

/// The JSON text inside a share code: the code, trimmed, read as standard
/// base64, its bytes read as UTF-8. A code that is no base64, or whose bytes
/// are no UTF-8, is refused with a message saying which.
pub fn project_json(code: &str) -> (r: Result<String, String>)
    ensures
        r is Ok <==> code_contents(code@) is Some,
        r is Ok ==> code_contents(code@) == Some(r->Ok_0@),
        base64_standard_decoded(trim(code@)) is None ==> exists|d: Seq<char>|
            r->Err_0@ == invalid_code_message(d),
        base64_standard_decoded(trim(code@)) is Some && code_contents(code@) is None ==> exists|
            d: Seq<char>,
        | r->Err_0@ == invalid_utf8_message(d),
{
    let c = chars_of(code);
    let t = trimmed(&c);
    let ts = string_of(&t);
    proof {
        assert(""@ =~= Seq::<char>::empty()) by {
            reveal_strlit("");
        }
    }
    match decode_base64(ts.as_str()) {
        Err(e) => {
            let m = join3("Invalid project code: ", e.as_str(), "");
            proof {
                assert(m@ =~= invalid_code_message(e@));
            }
            Err(m)
        },
        Ok(bytes) => match text_from_utf8(bytes) {
            Ok(s) => Ok(s),
            Err(e) => {
                let m = join3("Invalid UTF-8: ", e.as_str(), "");
                proof {
                    assert(m@ =~= invalid_utf8_message(e@));
                }
                Err(m)
            },
        },
    }
}

/// Refusal of a portable project of another version.
pub open spec fn version_message(version: u32) -> Seq<char> {
    "Unsupported project version "@ + decimal(version as nat)
        + " (this app supports version 1)"@
}

/// Accepts version 1 only.
pub fn check_project_version(version: u32) -> (r: Result<(), String>)
    ensures
        version == PROJECT_VERSION ==> r is Ok,
        version != PROJECT_VERSION ==> r is Err && r->Err_0@ == version_message(version),
{
    if version == PROJECT_VERSION {
        Ok(())
    } else {
        let mut v = chars_of("Unsupported project version ");
        let d = decimal_chars(version as u64);
        push_all(&mut v, &d);
        let tail = chars_of(" (this app supports version 1)");
        push_all(&mut v, &tail);
        Err(string_of(&v))
    }
}

impl ExportedProject {
    /// The values an imported project row gets: the default fee
    /// configuration and no customer-provided materials when the code states
    /// none.
    pub fn row_values(&self) -> (r: (String, String, Option<String>, String, String))
        ensures
            r.0@ == self.name@,
            r.1@ == self.notes@,
            r.2 == self.group_name,
            r.3@ == text_or(self.fee_config, DEFAULT_FEE_CONFIG@),
            r.4@ == text_or(self.customer_provides, EMPTY_CUSTOMER_PROVIDES@),
    {
        (
            self.name.clone(),
            self.notes.clone(),
            self.group_name.clone(),
            string_or(self.fee_config.clone(), DEFAULT_FEE_CONFIG),
            string_or(self.customer_provides.clone(), EMPTY_CUSTOMER_PROVIDES),
        )
    }
}


// ───────────────────────────── material availability ─────────────────────────────

/// An item in the character's inventory, as tracked from the logs (one row
/// per item type, quantities summed).
pub struct InventoryRow {
    pub type_id: i64,
    pub item_name: String,
    pub quantity: i64,
}

/// An item stack group in one storage vault of the latest snapshot (one row
/// per item type and vault, quantities summed).
pub struct StorageRow {
    pub type_id: i64,
    pub item_name: String,
    pub vault: String,
    pub quantity: i64,
}

/// The name and quantity the inventory gives an item: those of the last row
/// for it.
pub open spec fn inventory_entry(rows: Seq<InventoryRow>, id: i64) -> Option<(Seq<char>, int)>
    decreases rows.len(),
{
    if rows.len() == 0 {
        None
    } else if rows.last().type_id == id {
        Some((rows.last().item_name@, rows.last().quantity as int))
    } else {
        inventory_entry(rows.drop_last(), id)
    }
}

/// The name after the storage rows: the first storage name for the item
/// fills it while it is still empty.
pub open spec fn storage_name(name: Seq<char>, rows: Seq<StorageRow>, id: i64) -> Seq<char>
    decreases rows.len(),
{
    if rows.len() == 0 {
        name
    } else {
        let n = storage_name(name, rows.drop_last(), id);
        if rows.last().type_id == id && n.len() == 0 {
            rows.last().item_name@
        } else {
            n
        }
    }
}

/// Total stored quantity of the item.
pub open spec fn storage_total(rows: Seq<StorageRow>, id: i64) -> int
    decreases rows.len(),
{
    if rows.len() == 0 {
        0
    } else {
        storage_total(rows.drop_last(), id) + if rows.last().type_id == id {
            rows.last().quantity as int
        } else {
            0
        }
    }
}

/// The vault a stack is in; a stack without one is in `Unknown`.
pub open spec fn vault_label(vault: Seq<char>) -> Seq<char> {
    if vault.len() == 0 {
        "Unknown"@
    } else {
        vault
    }
}

/// The item's stock per vault, in row order.
pub open spec fn vault_stocks(rows: Seq<StorageRow>, id: i64) -> Seq<(Seq<char>, int)>
    decreases rows.len(),
{
    if rows.len() == 0 {
        Seq::empty()
    } else {
        let v = vault_stocks(rows.drop_last(), id);
        if rows.last().type_id == id {
            v.push((vault_label(rows.last().vault@), rows.last().quantity as int))
        } else {
            v
        }
    }
}

/// The game-data name of an item: the first pair for it.
pub open spec fn catalog_name(catalog: Seq<(i64, String)>, id: i64) -> Option<Seq<char>>
    decreases catalog.len(),
{
    if catalog.len() == 0 {
        None
    } else if catalog[0].0 == id {
        Some(catalog[0].1@)
    } else {
        catalog_name(catalog.drop_first(), id)
    }
}

/// The name shown for an item that is neither carried nor stored under a
/// name: its game-data name, else `Item #<id>`.
pub open spec fn fallback_name(catalog: Seq<(i64, String)>, id: i64) -> Seq<char> {
    match catalog_name(catalog, id) {
        Some(n) => n,
        None => "Item #"@ + signed_decimal(id as int),
    }
}

/// (type id, name, carried, stored, per-vault stock, total)
pub type AvailabilityView = (i64, Seq<char>, int, int, Seq<(Seq<char>, int)>, int);

/// The availability of item `id`.
pub open spec fn availability(
    inventory: Seq<InventoryRow>,
    storage: Seq<StorageRow>,
    catalog: Seq<(i64, String)>,
    id: i64,
) -> AvailabilityView {
    let (name0, carried) = match inventory_entry(inventory, id) {
        Some(e) => e,
        None => (Seq::<char>::empty(), 0int),
    };
    let name1 = storage_name(name0, storage, id);
    let name = if name1.len() == 0 {
        fallback_name(catalog, id)
    } else {
        name1
    };
    let stored = storage_total(storage, id);
    (id, name, carried, stored, vault_stocks(storage, id), carried + stored)
}

/// The ids in order, each at its first occurrence only.
pub open spec fn first_occurrences(ids: Seq<i64>) -> Seq<i64>
    decreases ids.len(),
{
    if ids.len() == 0 {
        Seq::empty()
    } else {
        let d = first_occurrences(ids.drop_last());
        if ids.drop_last().contains(ids.last()) {
            d
        } else {
            d.push(ids.last())
        }
    }
}

pub open spec fn stock_views(v: Seq<VaultStock>) -> Seq<(Seq<char>, int)> {
    v.map_values(|s: VaultStock| (s.vault_name@, s.quantity as int))
}

pub open spec fn availability_view(m: MaterialAvailability) -> AvailabilityView {
    (
        m.item_type_id,
        m.item_name@,
        m.inventory_quantity as int,
        m.storage_quantity as int,
        stock_views(m.vault_breakdown@),
        m.total_available as int,
    )
}

pub open spec fn availability_views(v: Seq<MaterialAvailability>) -> Seq<AvailabilityView> {
    v.map_values(|m: MaterialAvailability| availability_view(m))
}

/// Every running total of the stored quantity of item `id`, and its carried
/// plus stored total, fits an `i64`.
pub open spec fn item_fits(inventory: Seq<InventoryRow>, storage: Seq<StorageRow>, id: i64) -> bool {
    &&& forall|k: int|
        0 <= k <= storage.len() ==> i64::MIN <= #[trigger] storage_total(storage.take(k), id)
            <= i64::MAX
    &&& i64::MIN <= (match inventory_entry(inventory, id) {
        Some(e) => e.1,
        None => 0,
    }) + storage_total(storage, id) <= i64::MAX
}

/// [`item_fits`] for every requested item.
pub open spec fn availability_fits(
    ids: Seq<i64>,
    inventory: Seq<InventoryRow>,
    storage: Seq<StorageRow>,
) -> bool {
    forall|i: int| 0 <= i < ids.len() ==> item_fits(inventory, storage, #[trigger] ids[i])
}

fn inventory_of(rows: &[InventoryRow], id: i64) -> (r: Option<(String, i64)>)
    ensures
        match r {
            Some((n, q)) => inventory_entry(rows@, id) == Some((n@, q as int)),
            None => inventory_entry(rows@, id) is None,
        },
{
    let mut i: usize = rows.len();
    assert(rows@.take(rows@.len() as int) =~= rows@);
    while i > 0
        invariant
            i <= rows@.len(),
            inventory_entry(rows@, id) == inventory_entry(rows@.take(i as int), id),
        decreases i,
    {
        proof {
            assert(rows@.take(i as int).drop_last() =~= rows@.take(i - 1));
            assert(rows@.take(i as int).last() == rows@[i - 1]);
        }
        if rows[i - 1].type_id == id {
            return Some((rows[i - 1].item_name.clone(), rows[i - 1].quantity));
        }
        i = i - 1;
    }
    None
}

fn catalog_name_of(catalog: &[(i64, String)], id: i64) -> (r: Option<String>)
    ensures
        match r {
            Some(n) => catalog_name(catalog@, id) == Some(n@),
            None => catalog_name(catalog@, id) is None,
        },
{
    let mut i: usize = 0;
    assert(catalog@.skip(0) =~= catalog@);
    while i < catalog.len()
        invariant
            i <= catalog@.len(),
            catalog_name(catalog@, id) == catalog_name(catalog@.skip(i as int), id),
        decreases catalog@.len() - i,
    {
        proof {
            assert(catalog@.skip(i as int)[0] == catalog@[i as int]);
            assert(catalog@.skip(i as int).drop_first() =~= catalog@.skip(i + 1));
        }
        if catalog[i].0 == id {
            return Some(catalog[i].1.clone());
        }
        i = i + 1;
    }
    None
}

fn item_label(id: i64) -> (s: String)
    ensures
        s@ == "Item #"@ + signed_decimal(id as int),
{
    let mut v = chars_of("Item #");
    let d = signed_decimal_chars(id);
    push_all(&mut v, &d);
    string_of(&v)
}

/// The availability of one item.
fn availability_of(
    inventory: &[InventoryRow],
    storage: &[StorageRow],
    catalog: &[(i64, String)],
    id: i64,
) -> (m: MaterialAvailability)
    requires
        item_fits(inventory@, storage@, id),
    ensures
        availability_view(m) == availability(inventory@, storage@, catalog@, id),
{
    let (mut name, carried) = match inventory_of(inventory, id) {
        Some((n, q)) => (n, q),
        None => (String::new(), 0),
    };
    let ghost name0 = name@;
    let mut stored: i64 = 0;
    let mut vaults: Vec<VaultStock> = Vec::new();
    let mut i: usize = 0;
    assert(storage@.take(0) =~= Seq::<StorageRow>::empty());
    while i < storage.len()
        invariant
            i <= storage@.len(),
            forall|k: int|
                0 <= k <= storage@.len() ==> i64::MIN <= #[trigger] storage_total(
                    storage@.take(k),
                    id,
                ) <= i64::MAX,
            name@ == storage_name(name0, storage@.take(i as int), id),
            stored == storage_total(storage@.take(i as int), id),
            stock_views(vaults@) == vault_stocks(storage@.take(i as int), id),
        decreases storage@.len() - i,
    {
        let ghost pre = storage@.take(i as int);
        proof {
            assert(storage@.take(i + 1).drop_last() =~= pre);
            assert(storage@.take(i + 1).last() == storage@[i as int]);
            assert(i64::MIN <= storage_total(storage@.take(i + 1), id) <= i64::MAX);
        }
        let row = &storage[i];
        if row.type_id == id {
            if name.as_str().is_empty() {
                name = row.item_name.clone();
            }
            stored = stored + row.quantity;
            let label = if row.vault.as_str().is_empty() {
                "Unknown".to_owned()
            } else {
                row.vault.clone()
            };
            let ghost before = vaults@;
            vaults.push(VaultStock { vault_name: label, quantity: row.quantity });
            proof {
                assert(stock_views(vaults@) =~= stock_views(before).push(
                    (vault_label(row.vault@), row.quantity as int),
                ));
            }
        }
        i = i + 1;
    }
    proof {
        assert(storage@.take(storage@.len() as int) =~= storage@);
    }
    if name.as_str().is_empty() {
        name = match catalog_name_of(catalog, id) {
            Some(n) => n,
            None => item_label(id),
        };
    }
    MaterialAvailability {
        item_type_id: id,
        item_name: name,
        inventory_quantity: carried,
        storage_quantity: stored,
        vault_breakdown: vaults,
        total_available: carried + stored,
    }
}

proof fn lemma_first_occurrences_step(ids: Seq<i64>, i: int)
    requires
        0 <= i < ids.len(),
    ensures
        first_occurrences(ids.take(i + 1)) == if ids.take(i).contains(ids[i]) {
            first_occurrences(ids.take(i))
        } else {
            first_occurrences(ids.take(i)).push(ids[i])
        },
{
    assert(ids.take(i + 1).drop_last() =~= ids.take(i));
    assert(ids.take(i + 1).last() == ids[i]);
}

/// Availability of each requested item, in the order requested (an item
/// requested twice is listed once, at its first request): the quantity
/// carried (from the inventory tracked in the logs), the quantity stored in
/// each vault of the latest storage snapshot and their sum, and the total.
/// The name is the inventory's, else the first stored stack's, else the
/// game data's, else `Item #<id>`.
pub fn material_availability(
    item_type_ids: &[i64],
    inventory: &[InventoryRow],
    storage: &[StorageRow],
    catalog: &[(i64, String)],
) -> (r: Vec<MaterialAvailability>)
    requires
        availability_fits(item_type_ids@, inventory@, storage@),
    ensures
        availability_views(r@) == first_occurrences(item_type_ids@).map_values(
            |id: i64| availability(inventory@, storage@, catalog@, id),
        ),
{
    let ghost ids = item_type_ids@;
    let mut out: Vec<MaterialAvailability> = Vec::new();
    let mut i: usize = 0;
    assert(ids.take(0) =~= Seq::<i64>::empty());
    while i < item_type_ids.len()
        invariant
            i <= ids.len(),
            ids == item_type_ids@,
            availability_fits(ids, inventory@, storage@),
            availability_views(out@) == first_occurrences(ids.take(i as int)).map_values(
                |id: i64| availability(inventory@, storage@, catalog@, id),
            ),
        decreases ids.len() - i,
    {
        let id = item_type_ids[i];
        proof {
            lemma_first_occurrences_step(ids, i as int);
        }
        let mut seen = false;
        let mut j: usize = 0;
        while j < i
            invariant
                j <= i < ids.len(),
                ids == item_type_ids@,
                id == ids[i as int],
                seen == ids.take(j as int).contains(id),
            decreases i - j,
        {
            proof {
                assert(ids.take(j + 1) =~= ids.take(j as int).push(ids[j as int]));
                if ids.take(j as int).contains(id) {
                    let q = choose|q: int| 0 <= q < j && #[trigger] ids.take(j as int)[q] == id;
                    assert(ids.take(j + 1)[q] == id);
                }
                if ids.take(j + 1).contains(id) && ids[j as int] != id {
                    let q = choose|q: int| 0 <= q < j + 1 && #[trigger] ids.take(j + 1)[q] == id;
                    assert(ids.take(j as int)[q] == id);
                }
            }
            if item_type_ids[j] == id {
                seen = true;
                proof {
                    assert(ids.take(j + 1)[j as int] == id);
                }
            }
            j = j + 1;
        }
        if !seen {
            let m = availability_of(inventory, storage, catalog, id);
            let ghost before = out@;
            out.push(m);
            proof {
                assert(availability_views(out@) =~= availability_views(before).push(
                    availability_view(m),
                ));
                assert(first_occurrences(ids.take(i + 1)).map_values(
                    |x: i64| availability(inventory@, storage@, catalog@, x),
                ) =~= first_occurrences(ids.take(i as int)).map_values(
                    |x: i64| availability(inventory@, storage@, catalog@, x),
                ).push(availability(inventory@, storage@, catalog@, id)));
            }
        }
        i = i + 1;
    }
    assert(ids.take(ids.len() as int) =~= ids);
    out
}



// ───────────────────────────── work orders ─────────────────────────────

/// What reading `text` as JSON gives for the array under `key` of the top
/// object, each element read as a string if it is one: `None` when the text
/// is no JSON, `Some(None)` when there is no such array.
pub uninterp spec fn json_array_strings(text: Seq<char>, key: Seq<char>) -> Option<
    Option<Seq<Option<Seq<char>>>>,
>;

pub open spec fn opt_string_views(v: Seq<Option<String>>) -> Seq<Option<Seq<char>>> {
    v.map_values(
        |o: Option<String>|
            match o {
                Some(s) => Some(s@),
                None => None,
            },
    )
}

/// `serde_json::from_str::<Value>`, then `get(key)` and `as_array`, each
/// element mapped by `as_str`; the parse error rendered as text. Its result
/// is named [`json_array_strings`]; the error text is not stated.
#[verifier::external_body]
fn read_json_array_strings(text: &str, key: &str) -> (r: Result<Option<Vec<Option<String>>>, String>)
    ensures
        match r {
            Ok(Some(v)) => json_array_strings(text@, key@) == Some(Some(opt_string_views(v@))),
            Ok(None) => json_array_strings(text@, key@) == Some(None::<Seq<Option<Seq<char>>>>),
            Err(_) => json_array_strings(text@, key@) is None,
        },
{
    let parsed: serde_json::Value = serde_json::from_str(text).map_err(|e| format!("{e}"))?;
    Ok(parsed.get(key).and_then(|v| v.as_array()).map(
        |arr| arr.iter().map(|v| v.as_str().map(String::from)).collect(),
    ))
}

/// The strings among the elements, in order.
pub open spec fn present_strings(v: Seq<Option<Seq<char>>>) -> Seq<Seq<char>>
    decreases v.len(),
{
    if v.len() == 0 {
        Seq::empty()
    } else {
        match v.last() {
            Some(s) => present_strings(v.drop_last()).push(s),
            None => present_strings(v.drop_last()),
        }
    }
}

/// The strings listed under `key` of a snapshot (none when it lists none).
pub open spec fn snapshot_list(text: Seq<char>, key: Seq<char>) -> Seq<Seq<char>> {
    match json_array_strings(text, key) {
        Some(Some(v)) => present_strings(v),
        _ => Seq::empty(),
    }
}

fn strings_present(v: Vec<Option<String>>) -> (r: Vec<String>)
    ensures
        crate::text::texts(r@) == present_strings(opt_string_views(v@)),
{
    let ghost vv = opt_string_views(v@);
    let mut out: Vec<String> = Vec::new();
    let mut rest = v;
    let ghost r0 = rest@;
    let n = rest.len();
    let mut i: usize = 0;
    assert(vv.take(0) =~= Seq::<Option<Seq<char>>>::empty());
    while rest.len() > 0
        invariant
            i + rest@.len() == n,
            n == r0.len(),
            vv == opt_string_views(r0),
            rest@ == r0.skip(i as int),
            crate::text::texts(out@) == present_strings(vv.take(i as int)),
        decreases rest@.len(),
    {
        let o = rest.remove(0);
        proof {
            assert(o == r0[i as int]);
            assert(rest@ =~= r0.skip(i + 1));
            assert(vv.take(i + 1).drop_last() =~= vv.take(i as int));
            assert(vv.take(i + 1).last() == vv[i as int]);
        }
        match o {
            Some(s) => {
                let ghost before = out@;
                out.push(s);
                proof {
                    assert(crate::text::texts(out@) =~= crate::text::texts(before).push(
                        out@[before.len() as int]@,
                    ));
                }
            },
            None => {},
        }
        i = i + 1;
    }
    assert(vv.take(n as int) =~= vv);
    out
}

fn snapshot_strings(raw: &str, key: &str) -> (r: Result<Vec<String>, String>)
    ensures
        match r {
            Ok(v) => json_array_strings(raw@, key@) is Some && crate::text::texts(v@)
                == snapshot_list(raw@, key@),
            Err(e) => json_array_strings(raw@, key@) is None && exists|d: Seq<char>|
                e@ == "Failed to parse snapshot JSON: "@ + d,
        },
{
    match read_json_array_strings(raw, key) {
        Ok(Some(v)) => Ok(strings_present(v)),
        Ok(None) => Ok(Vec::new()),
        Err(e) => {
            let m = join3("Failed to parse snapshot JSON: ", e.as_str(), "");
            proof {
                assert(""@ =~= Seq::<char>::empty()) by {
                    reveal_strlit("");
                }
                assert(m@ =~= "Failed to parse snapshot JSON: "@ + e@);
            }
            Err(m)
        },
    }
}

/// The work orders of a character: the active and completed ones listed in
/// its latest snapshot (none without a snapshot), and the work order scroll
/// items it holds. A snapshot that is no JSON is refused (the text is read
/// once per list; both readings fail together).
pub fn work_orders_from_snapshot(raw_json: Option<&str>, inventory_item_ids: Vec<u32>) -> (r: Result<
    WorkOrderData,
    String,
>)
    ensures
        match raw_json {
            None => r is Ok && r->Ok_0.active@.len() == 0 && r->Ok_0.completed@.len() == 0
                && r->Ok_0.inventory_item_ids@ == inventory_item_ids@,
            Some(raw) => if json_array_strings(raw@, "ActiveWorkOrders"@) is None || json_array_strings(
                raw@,
                "CompletedWorkOrders"@,
            ) is None {
                r is Err && exists|d: Seq<char>| r->Err_0@ == "Failed to parse snapshot JSON: "@ + d
            } else {
                r is Ok && crate::text::texts(r->Ok_0.active@) == snapshot_list(
                    raw@,
                    "ActiveWorkOrders"@,
                ) && crate::text::texts(r->Ok_0.completed@) == snapshot_list(
                    raw@,
                    "CompletedWorkOrders"@,
                ) && r->Ok_0.inventory_item_ids@ == inventory_item_ids@
            },
        },
{
    match raw_json {
        None => Ok(WorkOrderData { active: Vec::new(), completed: Vec::new(), inventory_item_ids }),
        Some(raw) => {
            let active = match snapshot_strings(raw, "ActiveWorkOrders") {
                Ok(v) => v,
                Err(e) => return Err(e),
            };
            let completed = match snapshot_strings(raw, "CompletedWorkOrders") {
                Ok(v) => v,
                Err(e) => return Err(e),
            };
            Ok(WorkOrderData { active, completed, inventory_item_ids })
        },
    }
}

} // verus!
