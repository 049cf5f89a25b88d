use crate::ast::Value;
use vstd::prelude::*;

verus! {

/// The error reported when an index does not fall inside an array.
#[derive(Debug, Clone, Copy, PartialEq, Eq)]
pub struct AddressError;

/// A location in the machine's store.
#[derive(Debug, Clone, Copy, PartialEq, Eq, Structural, PartialOrd, Ord, Hash)]
pub struct Address {
    pub a: usize,
}

/// What `get_index_info` answers for an offset into an array value.
pub open spec fn index_info_spec(offset: i32, arr: Value) -> Result<Address, AddressError> {
    if offset < 0 {
        Err(AddressError)
    } else {
        match arr {
            Value::ArrayV { size, start_of_array } => {
                let potential = start_of_array.a + offset;
                if start_of_array.a + size < potential {
                    Err(AddressError)
                } else {
                    Ok(Address { a: potential as usize })
                }
            },
            _ => Err(AddressError),
        }
    }
}

/// The arithmetic of `get_index_info` stays inside `usize`.
pub open spec fn index_info_fits(offset: i32, arr: Value) -> bool {
    match arr {
        Value::ArrayV { size, start_of_array } => offset >= 0 ==> {
            &&& start_of_array.a + offset <= usize::MAX
            &&& start_of_array.a + size <= usize::MAX
        },
        _ => true,
    }
}

impl Address {
    /// Hands out the current address and moves on to the next one.
    pub fn get_address(&mut self) -> (r: Address)
        requires
            old(self).a < usize::MAX,
        ensures
            r.a == old(self).a,
            final(self).a == old(self).a + 1,
    {
        let addr = self.a;
        self.a = self.a + 1;
        Address { a: addr }
    }

    /// The address `offset` cells away, the offset converted to `usize` as Rust's `as` does.
    pub fn address_offset(&self, offset: i32) -> (r: Self)
        requires
            self.a + (offset as usize) <= usize::MAX,
        ensures
            r.a == self.a + (offset as usize),
    {
        Self { a: self.a + offset as usize }
    }

    /// The address of element `offset` of the array value `arr`.
    pub fn get_index_info(offset: i32, arr: &Value) -> (r: Result<Address, AddressError>)
        requires
            index_info_fits(offset, *arr),
        ensures
            r == index_info_spec(offset, *arr),
    {
        if offset < 0 {
            return Err(AddressError);
        }
        let offset = offset as usize;
        match arr {
            Value::ArrayV { size, start_of_array } => {
                let potential = start_of_array.a + offset;
                if start_of_array.a + *size < potential {
                    Err(AddressError)
                } else {
                    Ok(Address { a: potential })
                }
            },
            _ => Err(AddressError),
        }
    }

    pub fn new(addr: usize) -> (r: Self)
        ensures
            r.a == addr,
    {
        Self { a: addr }
    }
}

/// A successful index lies between the start of the array and one past its last element.
pub proof fn law_index_info_in_bounds(offset: i32, arr: Value)
    requires
        index_info_fits(offset, arr),
        index_info_spec(offset, arr) is Ok,
    ensures
        arr is ArrayV,
        arr->start_of_array.a <= index_info_spec(offset, arr)->Ok_0.a <= arr->start_of_array.a
            + arr->size,
{
}

/// The address `offset` cells after `a`.
pub open spec fn offset_address(a: Address, offset: int) -> Address {
    Address { a: (a.a + offset) as usize }
}

impl core::ops::Add<i32> for &Address {
    type Output = Address;

    fn add(self, rhs: i32) -> (r: Address) {
        Address { a: self.a + rhs as usize }
    }
}

impl vstd::std_specs::ops::AddSpecImpl<i32> for &Address {
    open spec fn obeys_add_spec() -> bool {
        true
    }

    open spec fn add_req(self, rhs: i32) -> bool {
        0 <= rhs && self.a + rhs <= usize::MAX
    }

    open spec fn add_spec(self, rhs: i32) -> Address {
        offset_address(*self, rhs as int)
    }
}

impl core::ops::Add<&Address> for i32 {
    type Output = Address;

    fn add(self, rhs: &Address) -> (r: Address) {
        Address { a: rhs.a + self as usize }
    }
}

impl vstd::std_specs::ops::AddSpecImpl<&Address> for i32 {
    open spec fn obeys_add_spec() -> bool {
        true
    }

    open spec fn add_req(self, rhs: &Address) -> bool {
        0 <= self && rhs.a + self <= usize::MAX
    }

    open spec fn add_spec(self, rhs: &Address) -> Address {
        offset_address(*rhs, self as int)
    }
}

impl core::ops::Add<usize> for &Address {
    type Output = Address;

    fn add(self, rhs: usize) -> (r: Address) {
        Address { a: rhs + self.a }
    }
}

impl vstd::std_specs::ops::AddSpecImpl<usize> for &Address {
    open spec fn obeys_add_spec() -> bool {
        true
    }

    open spec fn add_req(self, rhs: usize) -> bool {
        self.a + rhs <= usize::MAX
    }

    open spec fn add_spec(self, rhs: usize) -> Address {
        offset_address(*self, rhs as int)
    }
}

impl core::ops::Add<&Address> for usize {
    type Output = Address;

    fn add(self, rhs: &Address) -> (r: Address) {
        Address { a: rhs.a + self }
    }
}

impl vstd::std_specs::ops::AddSpecImpl<&Address> for usize {
    open spec fn obeys_add_spec() -> bool {
        true
    }

    open spec fn add_req(self, rhs: &Address) -> bool {
        rhs.a + self <= usize::MAX
    }

    open spec fn add_spec(self, rhs: &Address) -> Address {
        offset_address(*rhs, self as int)
    }
}

} // verus!
