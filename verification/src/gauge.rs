//! The capability-gated gauge model.
//!
//! Every chip variant supplies its fixed attribute-directory name (the base
//! identity); on top of that, two additive capability tiers expose telemetry
//! operations.  A variant that does not declare a tier simply does not have
//! its operations: calling an unsupported operation is a type error, not a
//! runtime failure.
//!
//! Where a chip's attribute directory lives is configuration, not hardware
//! identity: a root directory may be injected at construction, and the
//! chip's directory sits beneath it.  With no root, paths are plain
//! `<directory>/<field>`, resolved by the host environment.

use vstd::prelude::*;

use crate::attr::{attr_path, base_dir, i32_read_matches, join_base_dir, join_path,
    read_i32_property, read_u32_property, u32_read_matches, AttrError};

verus! {

/// The attribute path one telemetry operation of gauge `g` reads.
pub open spec fn instance_attr<G: Gauge>(g: &G, field: Seq<char>) -> Seq<char> {
    attr_path(base_dir(g.root_spec(), G::dir_spec()), field)
}

/// The base identity every gauge chip variant must supply: where its
/// attribute files live.
pub trait Gauge: Sized {
    /// The chip's attribute-directory name as a mathematical value; one
    /// fixed constant per variant.
    spec fn dir_spec() -> Seq<char>;

    /// The root directory this instance was configured with; empty when
    /// none was injected.
    spec fn root_spec(&self) -> Seq<char>;

    /// Construct the chip variant with no root: attribute paths are
    /// relative.  Stateless and free of I/O; reads happen only on a
    /// telemetry call.
    fn new() -> (r: Self)
        ensures
            r.root_spec() == Seq::<char>::empty(),
    ;

    /// Construct the chip variant with an injected root directory, under
    /// which its attribute directory lives.
    fn with_root(root: String) -> (r: Self)
        ensures
            r.root_spec() == root@,
    ;

    /// The directory name all of this chip's attribute files live in:
    /// non-empty and the same on every call.
    fn path(&self) -> (r: &'static str)
        ensures
            r@ == Self::dir_spec(),
            r@.len() > 0,
    ;

    /// The injected root directory; empty when none was given.
    fn root(&self) -> (r: &str)
        ensures
            r@ == self.root_spec(),
    ;
}

/// Basic telemetry: capacity, voltage, current and charge levels.  Each
/// operation reads one attribute file under the chip's directory and is
/// independently fallible; values are reported in whatever unit the backing
/// attribute encodes.
pub trait GaugeBase: Gauge {
    /// Remaining capacity, from `<dir>/capacity`.
    fn get_capacity(&self) -> (r: Result<u32, AttrError>)
        ensures
            exists|content: Option<Seq<char>>|
                u32_read_matches(r, content, instance_attr(self, "capacity"@)),
    {
        let base = join_base_dir(self.root(), self.path());
        let p = join_path(base.as_str(), "capacity");
        let r = read_u32_property(p.as_str());
        proof {
            let content = choose|content: Option<Seq<char>>| u32_read_matches(r, content, p@);
            assert(u32_read_matches(r, content, instance_attr(self, "capacity"@)));
        }
        r
    }

    /// Battery voltage, from `<dir>/voltage`.
    fn get_voltage(&self) -> (r: Result<u32, AttrError>)
        ensures
            exists|content: Option<Seq<char>>|
                u32_read_matches(r, content, instance_attr(self, "voltage"@)),
    {
        let base = join_base_dir(self.root(), self.path());
        let p = join_path(base.as_str(), "voltage");
        let r = read_u32_property(p.as_str());
        proof {
            let content = choose|content: Option<Seq<char>>| u32_read_matches(r, content, p@);
            assert(u32_read_matches(r, content, instance_attr(self, "voltage"@)));
        }
        r
    }

    /// Momentary current, from `<dir>/current_now`.  Signed: a negative
    /// value indicates discharge.
    fn get_current(&self) -> (r: Result<i32, AttrError>)
        ensures
            exists|content: Option<Seq<char>>|
                i32_read_matches(r, content, instance_attr(self, "current_now"@)),
    {
        let base = join_base_dir(self.root(), self.path());
        let p = join_path(base.as_str(), "current_now");
        let r = read_i32_property(p.as_str());
        proof {
            let content = choose|content: Option<Seq<char>>| i32_read_matches(r, content, p@);
            assert(i32_read_matches(r, content, instance_attr(self, "current_now"@)));
        }
        r
    }

    /// Capacity when full, from `<dir>/charge_full`.
    fn get_full_charge_capacity(&self) -> (r: Result<u32, AttrError>)
        ensures
            exists|content: Option<Seq<char>>|
                u32_read_matches(r, content, instance_attr(self, "charge_full"@)),
    {
        let base = join_base_dir(self.root(), self.path());
        let p = join_path(base.as_str(), "charge_full");
        let r = read_u32_property(p.as_str());
        proof {
            let content = choose|content: Option<Seq<char>>| u32_read_matches(r, content, p@);
            assert(u32_read_matches(r, content, instance_attr(self, "charge_full"@)));
        }
        r
    }

    /// Charge currently held, from `<dir>/charge_now`.
    fn get_charge_now_capacity(&self) -> (r: Result<u32, AttrError>)
        ensures
            exists|content: Option<Seq<char>>|
                u32_read_matches(r, content, instance_attr(self, "charge_now"@)),
    {
        let base = join_base_dir(self.root(), self.path());
        let p = join_path(base.as_str(), "charge_now");
        let r = read_u32_property(p.as_str());
        proof {
            let content = choose|content: Option<Seq<char>>| u32_read_matches(r, content, p@);
            assert(u32_read_matches(r, content, instance_attr(self, "charge_now"@)));
        }
        r
    }
}

/// Advanced telemetry: charge-time estimates and cycle counting.  Only chip
/// variants that declare this tier expose these operations.
pub trait GaugeAdv: Gauge {
    /// Estimated time until full, from `<dir>/time_to_full_now`.
    fn get_time_to_full(&self) -> (r: Result<u32, AttrError>)
        ensures
            exists|content: Option<Seq<char>>|
                u32_read_matches(r, content, instance_attr(self, "time_to_full_now"@)),
    {
        let base = join_base_dir(self.root(), self.path());
        let p = join_path(base.as_str(), "time_to_full_now");
        let r = read_u32_property(p.as_str());
        proof {
            let content = choose|content: Option<Seq<char>>| u32_read_matches(r, content, p@);
            assert(u32_read_matches(r, content, instance_attr(self, "time_to_full_now"@)));
        }
        r
    }

    /// Estimated time until empty, from `<dir>/time_to_empty_now`.
    fn get_time_to_empty(&self) -> (r: Result<u32, AttrError>)
        ensures
            exists|content: Option<Seq<char>>|
                u32_read_matches(r, content, instance_attr(self, "time_to_empty_now"@)),
    {
        let base = join_base_dir(self.root(), self.path());
        let p = join_path(base.as_str(), "time_to_empty_now");
        let r = read_u32_property(p.as_str());
        proof {
            let content = choose|content: Option<Seq<char>>| u32_read_matches(r, content, p@);
            assert(u32_read_matches(r, content, instance_attr(self, "time_to_empty_now"@)));
        }
        r
    }

    /// Charge cycles seen so far, from `<dir>/cycle_count`.
    fn get_cycle_count(&self) -> (r: Result<u32, AttrError>)
        ensures
            exists|content: Option<Seq<char>>|
                u32_read_matches(r, content, instance_attr(self, "cycle_count"@)),
    {
        let base = join_base_dir(self.root(), self.path());
        let p = join_path(base.as_str(), "cycle_count");
        let r = read_u32_property(p.as_str());
        proof {
            let content = choose|content: Option<Seq<char>>| u32_read_matches(r, content, p@);
            assert(u32_read_matches(r, content, instance_attr(self, "cycle_count"@)));
        }
        r
    }
}

/// The BQ27621 fuel gauge: basic telemetry only.
pub struct BQ27621 {
    root: String,
}

/// The BQ27z561 fuel gauge: basic and advanced telemetry.
pub struct BQ27z561 {
    root: String,
}

impl Gauge for BQ27621 {
    open spec fn dir_spec() -> Seq<char> {
        "bq27621"@
    }

    closed spec fn root_spec(&self) -> Seq<char> {
        self.root@
    }

    fn new() -> BQ27621 {
        BQ27621 { root: String::new() }
    }

    fn with_root(root: String) -> BQ27621 {
        BQ27621 { root }
    }

    fn path(&self) -> (r: &'static str) {
        proof {
            reveal_strlit("bq27621");
        }
        "bq27621"
    }

    fn root(&self) -> (r: &str) {
        self.root.as_str()
    }
}

impl Gauge for BQ27z561 {
    open spec fn dir_spec() -> Seq<char> {
        "bq27z561"@
    }

    closed spec fn root_spec(&self) -> Seq<char> {
        self.root@
    }

    fn new() -> BQ27z561 {
        BQ27z561 { root: String::new() }
    }

    fn with_root(root: String) -> BQ27z561 {
        BQ27z561 { root }
    }

    fn path(&self) -> (r: &'static str) {
        proof {
            reveal_strlit("bq27z561");
        }
        "bq27z561"
    }

    fn root(&self) -> (r: &str) {
        self.root.as_str()
    }
}

impl GaugeBase for BQ27621 {

}

impl GaugeBase for BQ27z561 {

}

impl GaugeAdv for BQ27z561 {

}

/// Law: the BQ27621's directory name is the fixed, non-empty documented
/// value, so `path` on it can never return anything else.
pub proof fn lemma_bq27621_directory()
    ensures
        BQ27621::dir_spec() == "bq27621"@,
        BQ27621::dir_spec().len() > 0,
{
    reveal_strlit("bq27621");
}

/// Law: the BQ27z561's directory name is the fixed, non-empty documented
/// value, so `path` on it can never return anything else.
pub proof fn lemma_bq27z561_directory()
    ensures
        BQ27z561::dir_spec() == "bq27z561"@,
        BQ27z561::dir_spec().len() > 0,
{
    reveal_strlit("bq27z561");
}

} // verus!
