//! Known ASUS ROG Astral GPUs with per-pin telemetry.
//!
//! Subsystem device ids are community-sourced. The reader also works on **unlisted** SKUs as long
//! as the chip answers with plausible telemetry — the table is just for naming.

use crate::number;
use crate::number::read_unsigned;
use crate::text;
use crate::text::{begins_with, chars_of, in_order, slice_of, trim};
use vstd::prelude::*;

verus! {

/// ASUS PCI subsystem vendor id.
pub const ASUS_VENDOR: u16 = 0x1043;

/// NVIDIA PCI vendor id.
pub const NVIDIA_VENDOR: u16 = 0x10de;

/// A card that is known by name.
#[derive(Debug, Clone, Copy, PartialEq, Eq)]
pub struct Card {
    pub subsystem: u16,
    pub model: &'static str,
}

/// The subsystem device ids that are known, with the model each stands for.
pub open spec fn known() -> Seq<(u16, Seq<char>)> {
    seq![
        (0x89ed, "ROG Astral RTX 5090 O32G Gaming"@),
        (0x89ea, "ROG Astral RTX 5090"@),
        (0x89e3, "ROG Astral RTX 5090"@),
        (0x89de, "ROG Astral RTX 5090"@),
        (0x8a61, "ROG Astral RTX 5090 LC"@),
        (0x8a2e, "ROG Astral RTX 5090 (variant)"@),
        (0x89ec, "ROG Astral RTX 5080"@),
    ]
}

/// The table of cards as ids and names.
pub open spec fn card_views(cards: Seq<Card>) -> Seq<(u16, Seq<char>)> {
    cards.map_values(|c: Card| (c.subsystem, c.model@))
}

/// The known cards.
pub fn cards() -> (out: [Card; 7])
    ensures
        card_views(out@) == known(),
{
    let out = [
        Card { subsystem: 0x89ed, model: "ROG Astral RTX 5090 O32G Gaming" },
        Card { subsystem: 0x89ea, model: "ROG Astral RTX 5090" },
        Card { subsystem: 0x89e3, model: "ROG Astral RTX 5090" },
        Card { subsystem: 0x89de, model: "ROG Astral RTX 5090" },
        Card { subsystem: 0x8a61, model: "ROG Astral RTX 5090 LC" },
        Card { subsystem: 0x8a2e, model: "ROG Astral RTX 5090 (variant)" },
        Card { subsystem: 0x89ec, model: "ROG Astral RTX 5080" },
    ];
    assert(card_views(out@) =~= known());
    out
}

/// The model named by the first entry of the table with this id.
pub open spec fn model_in(table: Seq<(u16, Seq<char>)>, subsystem: u16) -> Option<Seq<char>>
    decreases table.len(),
{
    if table.len() == 0 {
        None
    } else if table[0].0 == subsystem {
        Some(table[0].1)
    } else {
        model_in(table.drop_first(), subsystem)
    }
}

/// Model name for a subsystem device id, if known.
pub fn model_for(subsystem: u16) -> (m: Option<&'static str>)
    ensures
        match m {
            Some(name) => model_in(known(), subsystem) == Some(name@),
            None => model_in(known(), subsystem) is None,
        },
{
    let table = cards();
    let ghost all = card_views(table@);
    let mut i: usize = 0;
    assert(all.skip(0) =~= all);
    while i < 7
        invariant
            i <= 7,
            all == card_views(table@),
            all == known(),
            model_in(known(), subsystem) == model_in(all.skip(i as int), subsystem),
        decreases 7 - i,
    {
        assert(all.skip(i as int)[0] == all[i as int]);
        assert(all.skip(i as int).drop_first() =~= all.skip(i + 1));
        if table[i].subsystem == subsystem {
            return Some(table[i].model);
        }
        i = i + 1;
    }
    None
}

/// An NVIDIA GPU as the system lists it.
#[derive(Debug, PartialEq, Eq)]
pub struct GpuInfo {
    /// PCI address, e.g. `0000:0b:00.0`.
    pub pci: String,
    pub subsystem_vendor: u16,
    pub subsystem_device: u16,
}

/// What a [`GpuInfo`] holds.
#[verifier::ext_equal]
pub struct GpuView {
    pub pci: Seq<char>,
    pub subsystem_vendor: u16,
    pub subsystem_device: u16,
}

impl View for GpuInfo {
    type V = GpuView;

    open spec fn view(&self) -> GpuView {
        GpuView {
            pci: self.pci@,
            subsystem_vendor: self.subsystem_vendor,
            subsystem_device: self.subsystem_device,
        }
    }
}

impl Clone for GpuInfo {
    fn clone(&self) -> (g: GpuInfo)
        ensures
            g@ == self@,
    {
        GpuInfo {
            pci: self.pci.clone(),
            subsystem_vendor: self.subsystem_vendor,
            subsystem_device: self.subsystem_device,
        }
    }
}

/// Whether a vendor number is that of ASUS.
pub open spec fn is_asus_vendor(vendor: u16) -> bool {
    vendor == ASUS_VENDOR
}

impl GpuInfo {
    /// Model name if this card's subsystem id is in the table.
    pub fn model(&self) -> (m: Option<&'static str>)
        ensures
            match m {
                Some(name) => model_in(known(), self.subsystem_device) == Some(name@),
                None => model_in(known(), self.subsystem_device) is None,
            },
    {
        model_for(self.subsystem_device)
    }

    /// Whether the board partner is ASUS (per-pin telemetry is an ASUS Astral/Matrix feature).
    pub fn is_asus(&self) -> (r: bool)
        ensures
            r == (self.subsystem_vendor == 0x1043),
            r == is_asus_vendor(self.subsystem_vendor),
    {
        self.subsystem_vendor == ASUS_VENDOR
    }
}

/// A PCI device as its attribute files describe it; `None` stands for a file that could not be
/// read.
#[derive(Debug, PartialEq)]
pub struct DeviceEntry {
    /// Name of the device's directory: its PCI address.
    pub name: Option<String>,
    pub vendor: Option<String>,
    pub class: Option<String>,
    pub subsystem_vendor: Option<String>,
    pub subsystem_device: Option<String>,
}

/// A text without the `0x` prefixes it begins with.
pub open spec fn without_0x(s: Seq<char>) -> Seq<char>
    decreases s.len(),
{
    if "0x"@.is_prefix_of(s) && s.len() >= 2 {
        without_0x(s.skip(2))
    } else {
        s
    }
}

/// The number in an attribute file such as `0x10de`.
pub open spec fn attribute(file: Option<String>) -> Option<u16> {
    match file {
        None => None,
        Some(s) => match number::numeral_value(
            without_0x(text::trimmed(s@)),
            16,
            u16::MAX as nat,
        ) {
            Ok(n) => Some(n as u16),
            Err(_) => None,
        },
    }
}

/// The number in an attribute file, or zero.
pub open spec fn attribute_or_zero(file: Option<String>) -> u16 {
    match attribute(file) {
        Some(n) => n,
        None => 0,
    }
}

/// The class of a display or 3D controller.
pub open spec fn gpu_class(class: Seq<char>) -> bool {
    ||| "0x0300"@.is_prefix_of(text::trimmed(class))
    ||| "0x0302"@.is_prefix_of(text::trimmed(class))
}

/// The NVIDIA GPU that an entry describes, if it describes one.
pub open spec fn gpu_of(e: DeviceEntry) -> Option<GpuView> {
    if attribute(e.vendor) == Some(NVIDIA_VENDOR) && e.class is Some && gpu_class(e.class->0@)
        && e.name is Some {
        Some(
            GpuView {
                pci: e.name->0@,
                subsystem_vendor: attribute_or_zero(e.subsystem_vendor),
                subsystem_device: attribute_or_zero(e.subsystem_device),
            },
        )
    } else {
        None
    }
}

fn read_hex(file: &Option<String>) -> (n: Option<u16>)
    ensures
        n == attribute(*file),
{
    match file {
        None => None,
        Some(s) => {
            let mut v = trim(&chars_of(s.as_str()));
            let ghost full = v@;
            proof {
                reveal_strlit("0x");
            }
            while begins_with(&v, "0x")
                invariant
                    "0x"@.len() == 2,
                    without_0x(v@) == without_0x(full),
                decreases v.len(),
            {
                let ghost had = v@;
                v = slice_of(&v, 2, v.len());
                assert(v@ =~= had.skip(2));
            }
            match read_unsigned(&v, 16, u16::MAX as u64) {
                Ok(n) => Some(n as u16),
                Err(_) => None,
            }
        },
    }
}

/// True for an NVIDIA display (`0x0300`) or 3D (`0x0302`) controller class — secondary GPUs
/// commonly enumerate as 3D controllers, so matching only VGA would miss a second Astral.
pub fn is_gpu_class(class: &str) -> (r: bool)
    ensures
        r == gpu_class(class@),
{
    let c = trim(&chars_of(class));
    begins_with(&c, "0x0300") || begins_with(&c, "0x0302")
}

/// The NVIDIA GPU at the PCI address that `entry` describes — used to name the card actually
/// backing the monitored i2c bus, rather than guessing the first VGA in the system.
pub fn gpu_at(entry: &DeviceEntry) -> (g: Option<GpuInfo>)
    ensures
        match g {
            Some(g) => gpu_of(*entry) == Some(g@),
            None => gpu_of(*entry) is None,
        },
{
    if read_hex(&entry.vendor) != Some(NVIDIA_VENDOR) {
        return None;
    }
    match (&entry.class, &entry.name) {
        (Some(class), Some(name)) => {
            if !is_gpu_class(class.as_str()) {
                return None;
            }
            let vendor: u16 = match read_hex(&entry.subsystem_vendor) {
                Some(n) => n,
                None => 0,
            };
            let device: u16 = match read_hex(&entry.subsystem_device) {
                Some(n) => n,
                None => 0,
            };
            Some(
                GpuInfo {
                    pci: name.clone(),
                    subsystem_vendor: vendor,
                    subsystem_device: device,
                },
            )
        },
        _ => None,
    }
}

/// The GPUs among the entries, in the order of the listing.
pub open spec fn gpus_among(entries: Seq<DeviceEntry>) -> Seq<GpuView>
    decreases entries.len(),
{
    if entries.len() == 0 {
        seq![]
    } else {
        let before = gpus_among(entries.drop_last());
        match gpu_of(entries.last()) {
            Some(g) => before.push(g),
            None => before,
        }
    }
}

/// What a list of GPUs holds.
pub open spec fn gpu_views(list: Seq<GpuInfo>) -> Seq<GpuView> {
    list.map_values(|g: GpuInfo| g@)
}

/// The PCI addresses never go down.
pub open spec fn sorted_by_pci(list: Seq<GpuView>) -> bool {
    forall|i: int, j: int|
        #![trigger list[i], list[j]]
        0 <= i <= j < list.len() ==> text::ordered(list[i].pci, list[j].pci)
}

fn insert_by_pci(v: &mut Vec<GpuInfo>, g: GpuInfo)
    requires
        sorted_by_pci(gpu_views(old(v)@)),
    ensures
        sorted_by_pci(gpu_views(final(v)@)),
        gpu_views(final(v)@).to_multiset() == gpu_views(old(v)@).to_multiset().insert(g@),
{
    let ghost had = v@;
    let ghost x = g@;
    let mut at: usize = v.len();
    while at > 0 && !in_order(v[at - 1].pci.as_str(), g.pci.as_str())
        invariant
            at <= v.len(),
            v@ == had,
            x == g@,
            forall|j: int| at <= j < v.len() ==> !text::ordered((#[trigger] v@[j]).pci@, x.pci),
        decreases at,
    {
        at = at - 1;
    }
    v.insert(at, g);
    proof {
        let before = gpu_views(had);
        let now = gpu_views(v@);
        assert(now =~= before.insert(at as int, x));
        assert(now.remove(at as int) =~= before);
        vstd::seq_lib::to_multiset_remove(now, at as int);
        assert(now[at as int] == x);
        assert(now.contains(x));
        now.to_multiset_ensures();
        assert(now.to_multiset() =~= before.to_multiset().insert(x));
        assert forall|i: int, j: int|
            #![trigger now[i], now[j]]
            0 <= i <= j < now.len() implies text::ordered(now[i].pci, now[j].pci) by {
            let p = if i < at { i } else { i - 1 };
            let q = if j < at { j } else { j - 1 };
            if i == j {
                text::lemma_ordered_total(now[i].pci, now[i].pci);
            } else if i != at && j != at {
                assert(now[i] == before[p] && now[j] == before[q]);
            } else if i == at {
                assert(now[j] == before[q] && before[q] == had[q]@);
                assert(!text::ordered(had[q].pci@, x.pci));
                text::lemma_ordered_total(x.pci, had[q].pci@);
            } else {
                assert(now[i] == before[i]);
                let last = before[at - 1];
                assert(last == had[at - 1]@);
                assert(text::ordered(before[i].pci, last.pci));
                text::lemma_ordered_transitive(before[i].pci, last.pci, x.pci);
            }
        }
    }
}

/// All NVIDIA display/3D GPUs present, sorted by PCI address.
pub fn nvidia_gpus(entries: &Vec<DeviceEntry>) -> (out: Vec<GpuInfo>)
    ensures
        sorted_by_pci(gpu_views(out@)),
        gpu_views(out@).to_multiset() == gpus_among(entries@).to_multiset(),
{
    let mut out: Vec<GpuInfo> = Vec::new();
    let mut i: usize = 0;
    assert(gpu_views(out@) =~= seq![]);
    while i < entries.len()
        invariant
            i <= entries.len(),
            sorted_by_pci(gpu_views(out@)),
            gpu_views(out@).to_multiset() == gpus_among(entries@.take(i as int)).to_multiset(),
        decreases entries.len() - i,
    {
        let ghost before = gpus_among(entries@.take(i as int));
        assert(entries@.take(i + 1).drop_last() =~= entries@.take(i as int));
        if let Some(g) = gpu_at(&entries[i]) {
            let ghost x = g@;
            insert_by_pci(&mut out, g);
            proof {
                vstd::seq_lib::to_multiset_build(before, x);
            }
        }
        i = i + 1;
    }
    assert(entries@.take(entries@.len() as int) =~= entries@);
    out
}

/// A GPU with any of the known ids has the name the table gives it, and no id is listed twice.
pub proof fn law_table_is_unambiguous(i: int)
    requires
        0 <= i < known().len(),
    ensures
        model_in(known(), known()[i].0) == Some(known()[i].1),
        forall|j: int| 0 <= j < known().len() && j != i ==> (#[trigger] known()[j]).0
            != known()[i].0,
{
    let all = known();
    assert forall|k: int| 0 <= k <= i implies model_in(all, all[i].0) == model_in(
        #[trigger] all.skip(k),
        all[i].0,
    ) by {
        lemma_skips(all, all[i].0, k);
    }
    assert(all.skip(i)[0] == all[i]);
}

proof fn lemma_skips(table: Seq<(u16, Seq<char>)>, id: u16, k: int)
    requires
        0 <= k <= table.len(),
        forall|j: int| 0 <= j < k ==> (#[trigger] table[j]).0 != id,
    ensures
        model_in(table, id) == model_in(table.skip(k), id),
    decreases k,
{
    if k == 0 {
        assert(table.skip(0) =~= table);
    } else {
        lemma_skips(table, id, k - 1);
        let s = table.skip(k - 1);
        assert(s[0] == table[k - 1]);
        assert(s.drop_first() =~= table.skip(k));
    }
}

} // verus!
