use vstd::prelude::*;
use core::marker::PhantomData;

verus! {

pub type BYTE = u8;
pub type USHORT = u16;
pub type WCHAR = u16;
pub type BOOL = i32;
pub type DWORD = u32;
pub type ULONG = u32;
#[allow(non_camel_case_types)]
pub type ULONG_PTR = u64;
pub type KPRIORITY = i32;
pub type NTSTATUS = i32;
pub type KAFFINITY = u64;

/// The type that untyped addresses point to. It only marks such addresses:
/// nothing here reads or makes a value of it.
#[allow(non_camel_case_types)]
#[derive(Copy, Clone)]
pub struct void;

/// An address in another process's memory, of a value of type `T`, kept as the
/// number it is: it is only handed back to the system to read from.
pub struct RawMutPtr<T>(pub u64, pub PhantomData<T>);

impl<T> Clone for RawMutPtr<T> {
    fn clone(&self) -> (copy: Self)
        ensures
            copy.0 == self.0,
    {
        RawMutPtr(self.0, PhantomData)
    }
}

impl<T> Copy for RawMutPtr<T> {}

impl<T> Default for RawMutPtr<T> {
    /// The null address.
    fn default() -> (null: RawMutPtr<T>)
        ensures
            null.0 == 0,
    {
        RawMutPtr(0, PhantomData)
    }
}

pub type PVOID = RawMutPtr<void>;
pub type PWSTR = RawMutPtr<WCHAR>;

/// A fixed number of values that the layout reserves and nobody reads.
pub struct ReservedData<T: Default + Copy, const N: usize>(pub [T; N]);

impl<T: Default + Copy, const N: usize> Default for ReservedData<T, N> {
    /// `N` copies of one default value of `T`.
    fn default() -> (reserved: Self)
        ensures
            forall|i: int| 0 <= i < N ==> call_ensures(T::default, (), #[trigger] reserved.0@[i]),
            forall|i: int, j: int| 0 <= i < N && 0 <= j < N ==> #[trigger] reserved.0@[i] == #[trigger] reserved.0@[j],
    {
        let value = T::default();
        Self([value; N])
    }
}

/// A counted wide-character string of another process: its length in bytes,
/// its capacity in bytes, and where its characters are.
#[allow(non_camel_case_types, non_snake_case)]
#[derive(Default)]
pub struct UNICODE_STRING {
    pub Length: USHORT,
    pub MaximumLength: USHORT,
    pub Buffer: PWSTR,
}

/// The start-up parameters of a process, as far as they are read here.
#[allow(non_camel_case_types, non_snake_case)]
#[derive(Default)]
pub struct RTL_USER_PROCESS_PARAMETERS {
    pub Reserved1: ReservedData<BYTE, 16>,
    pub Reserved2: ReservedData<PVOID, 10>,
    pub ImagePathName: UNICODE_STRING,
    pub CommandLine: UNICODE_STRING,
}

#[allow(non_camel_case_types)]
pub type PPEB_LDR_DATA = RawMutPtr<void>;
#[allow(non_camel_case_types)]
pub type PRTL_USER_PROCESS_PARAMETERS = RawMutPtr<RTL_USER_PROCESS_PARAMETERS>;
#[allow(non_camel_case_types)]
pub type PPS_POST_PROCESS_INIT_ROUTINE = RawMutPtr<void>;

/// The environment block of a process.
#[allow(non_camel_case_types, non_snake_case)]
#[derive(Default)]
pub struct PEB {
    pub Reserved1: ReservedData<BYTE, 2>,
    pub BeingDebugged: BYTE,
    pub Reserved2: ReservedData<BYTE, 1>,
    pub Reserved3: ReservedData<PVOID, 2>,
    pub Ldr: PPEB_LDR_DATA,
    pub ProcessParameters: PRTL_USER_PROCESS_PARAMETERS,
    pub Reserved4: ReservedData<PVOID, 3>,
    pub AtlThunkSListPtr: PVOID,
    pub Reserved5: PVOID,
    pub Reserved6: ULONG,
    pub Reserved7: PVOID,
    pub Reserved8: ULONG,
    pub AtlThunkSListPtr32: ULONG,
    pub Reserved9: ReservedData<PVOID, 45>,
    pub Reserved10: ReservedData<BYTE, 96>,
    pub PostProcessInitRoutine: PPS_POST_PROCESS_INIT_ROUTINE,
    pub Reserved11: ReservedData<BYTE, 128>,
    pub Reserved12: ReservedData<PVOID, 1>,
    pub SessionId: ULONG,
}

pub type PPEB = RawMutPtr<PEB>;

/// What the system tells about a process: among others, where its environment block is.
#[allow(non_camel_case_types, non_snake_case)]
#[derive(Default)]
pub struct PROCESS_BASIC_INFORMATION {
    pub ExitStatus: NTSTATUS,
    pub PebBaseAddress: PPEB,
    pub AffinityMask: KAFFINITY,
    pub BasePriority: KPRIORITY,
    pub UniqueProcessId: ULONG_PTR,
    pub InheritedFromUniqueProcessId: ULONG_PTR,
}

} // verus!
