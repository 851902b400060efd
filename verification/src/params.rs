//! Tweakable integer parameters and boolean flags, by name.

use vstd::prelude::*;
use crate::str_map::StrMap;

verus! {

broadcast use vstd::string::group_string_axioms;

/// A value with the range and step it may be tweaked within.
#[derive(Copy, Clone, Debug)]
pub struct ValueRange<T> {
    pub value: T,
    pub min: T,
    pub max: T,
    pub speed: T,
}

impl<T> ValueRange<T> {
    pub fn new(value: T, min: T, max: T, speed: T) -> (r: ValueRange<T>)
        ensures
            r == (ValueRange { value, min, max, speed }),
    {
        Self { value, min, max, speed }
    }
}

/// The integer parameters and the flags.
pub struct GlobalParams {
    pub ints: StrMap<ValueRange<i32>>,
    pub flags: StrMap<bool>,
}

/// The value of an integer parameter, `0` for a missing one.
pub open spec fn int_param(ints: Map<Seq<char>, ValueRange<i32>>, name: Seq<char>) -> i32 {
    if ints.dom().contains(name) {
        ints[name].value
    } else {
        0
    }
}

/// The value of a flag, `false` for a missing one.
pub open spec fn flag_value(flags: Map<Seq<char>, bool>, name: Seq<char>) -> bool {
    flags.dom().contains(name) && flags[name]
}

impl GlobalParams {
    /// The engine's parameters with their defaults: `bloom_alg` 1 in 0..=2,
    /// `physics_substeps` 8 in 1..=64, `tonemapping_alg` 3 in 0..=4, all in
    /// steps of 1, and the flag `additive-blending` set.
    pub fn new() -> (p: GlobalParams)
        ensures
            p.ints@ == Map::<Seq<char>, ValueRange<i32>>::empty()
                .insert("bloom_alg"@, ValueRange { value: 1, min: 0, max: 2, speed: 1 })
                .insert("physics_substeps"@, ValueRange { value: 8, min: 1, max: 64, speed: 1 })
                .insert("tonemapping_alg"@, ValueRange { value: 3, min: 0, max: 4, speed: 1 }),
            p.flags@ == Map::<Seq<char>, bool>::empty().insert("additive-blending"@, true),
    {
        let mut ints = StrMap::new();
        ints.insert("bloom_alg".to_string(), ValueRange::new(1, 0, 2, 1));
        ints.insert("physics_substeps".to_string(), ValueRange::new(8, 1, 64, 1));
        ints.insert("tonemapping_alg".to_string(), ValueRange::new(3, 0, 4, 1));
        let mut flags = StrMap::new();
        flags.insert("additive-blending".to_string(), true);
        GlobalParams { ints, flags }
    }

    /// Sets the value of an existing integer parameter; unknown names are ignored.
    pub fn set_int(&mut self, name: &str, value: i32)
        ensures
            final(self).ints@ == (if old(self).ints@.dom().contains(name@) {
                old(self).ints@.insert(name@, ValueRange { value, ..old(self).ints@[name@] })
            } else {
                old(self).ints@
            }),
            final(self).flags@ == old(self).flags@,
    {
        let key = name.to_string();
        let current = match self.ints.get(&key) {
            Some(r) => Some(*r),
            None => None,
        };
        match current {
            Some(r) => {
                self.ints.insert(key, ValueRange { value, ..r });
            },
            None => {},
        }
    }

    /// The value of an integer parameter; a missing one reads as 0.
    pub fn get_int(&self, name: &str) -> (v: i32)
        ensures
            v == int_param(self.ints@, name@),
    {
        match self.ints.get(&name.to_string()) {
            Some(r) => r.value,
            None => 0,
        }
    }

    /// Whether a flag is set; a missing one reads as unset.
    pub fn flag(&self, name: &str) -> (b: bool)
        ensures
            b == flag_value(self.flags@, name@),
    {
        match self.flags.get(&name.to_string()) {
            Some(b) => *b,
            None => false,
        }
    }

    /// Inverts a flag; a missing one becomes set.
    pub fn toggle_flag(&mut self, name: &str)
        ensures
            final(self).flags@ == old(self).flags@.insert(name@, !flag_value(old(self).flags@, name@)),
            final(self).ints@ == old(self).ints@,
    {
        let current = self.flag(name);
        self.flags.insert(name.to_string(), !current);
    }

    /// Sets a flag to `value`.
    pub fn flag_set(&mut self, name: &str, value: bool)
        ensures
            final(self).flags@ == old(self).flags@.insert(name@, value),
            final(self).ints@ == old(self).ints@,
    {
        self.flags.insert(name.to_string(), value);
    }
}

/// Toggling a flag twice leaves it as it was.
pub proof fn law_toggle_flag_twice(flags: Map<Seq<char>, bool>, name: Seq<char>)
    ensures
        ({
            let once = flags.insert(name, !flag_value(flags, name));
            let twice = once.insert(name, !flag_value(once, name));
            flag_value(twice, name) == flag_value(flags, name)
        }),
{
}

/// Setting an integer parameter that exists and reading it back gives the value set.
pub proof fn law_get_int_after_set_int(ints: Map<Seq<char>, ValueRange<i32>>, name: Seq<char>, value: i32)
    requires
        ints.dom().contains(name),
    ensures
        int_param(ints.insert(name, ValueRange { value, ..ints[name] }), name) == value,
{
}

} // verus!
