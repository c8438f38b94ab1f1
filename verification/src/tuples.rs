//! Reading several components at once.
//!
//! A tuple of up to eighteen component types can be read from the
//! container in one call, and names the keys that it reads. The components
//! are read one after the other, each as `Injector::get` gives it, and the
//! first failure ends the reading.

use crate::error::InjectError;
use crate::injector::{got, Injector};
use crate::named::Named;
use crate::type_key::{is_key_of, key_of};
use std::any::TypeId;
use vstd::prelude::*;

verus! {

/// A tuple of component types.
pub trait TupleInjectTypes: Sized {
    /// Reads each component of the tuple from the container, in order, and
    /// fails with the first that is missing.
    fn read_from_injector(injector: &Injector) -> (answer: Result<Self, InjectError>)
        ensures
            answer matches Err(error) ==> error@ is MissingValue,
    ;

    /// The key and the name of each type of the tuple, in order.
    fn dependencies_names() -> Vec<(TypeId, String)>;
}

/// Whether `parts` is what the tuple `In` may read from `injector`.
pub open spec fn read_parts<In: TupleInjectTypes>(injector: &Injector, parts: In) -> bool {
    call_ensures(In::read_from_injector, (injector,), Ok::<In, InjectError>(parts))
}

/// Whether `error` is a failure of the tuple `In` to read from `injector`.
pub open spec fn fails_to_read<In: TupleInjectTypes>(injector: &Injector, error: InjectError) -> bool {
    call_ensures(In::read_from_injector, (injector,), Err::<In, InjectError>(error))
}

impl TupleInjectTypes for () {
    fn read_from_injector(_injector: &Injector) -> (answer: Result<Self, InjectError>)
        ensures
            answer is Ok,
    {
        Ok(())
    }

    fn dependencies_names() -> (pairs: Vec<(TypeId, String)>)
        ensures
            pairs@.len() == 0,
    {
        Vec::new()
    }
}


impl<
        Arg1: Clone + Named + 'static,
    > TupleInjectTypes for (Arg1,) {
    /// The component, as `get` gives it.
    fn read_from_injector(injector: &Injector) -> (answer: Result<Self, InjectError>)
        ensures
            match answer {
                Ok(parts) => got::<Arg1>(injector, Ok::<Arg1, InjectError>(parts.0)),
                Err(error) => got::<Arg1>(injector, Err::<Arg1, InjectError>(error)),
            },
    {
        match injector.get::<Arg1>() {
            Ok(first) => Ok((first,)),
            Err(error) => Err(error),
        }
    }

    fn dependencies_names() -> (pairs: Vec<(TypeId, String)>)
        ensures
            pairs@.len() == 1,
            is_key_of::<Arg1>(pairs@[0].0),
            call_ensures(Arg1::type_label, (), pairs@[0].1),
    {
        let mut pairs: Vec<(TypeId, String)> = Vec::new();
        pairs.push((key_of::<Arg1>(), Arg1::type_label()));
        pairs
    }
}

impl<
        Arg1: Clone + Named + 'static,
        Arg2: Clone + Named + 'static,
    > TupleInjectTypes for (Arg1, Arg2) {
    /// The first component, as `get` gives it, and then the others, as
    /// the tuple of the others reads them. The reading fails where `get`
    /// fails for the first, with that failure, and otherwise where the
    /// reading of the others fails, with that failure.
    fn read_from_injector(injector: &Injector) -> (answer: Result<Self, InjectError>)
        ensures
            match answer {
                Ok(parts) => got::<Arg1>(injector, Ok::<Arg1, InjectError>(parts.0)) && read_parts::<
                    (Arg2,),
                >(injector, (parts.1,)),
                Err(error) => got::<Arg1>(injector, Err::<Arg1, InjectError>(error)) || ((exists|
                    first: Arg1,
                | #[trigger] got::<Arg1>(injector, Ok::<Arg1, InjectError>(first))) && fails_to_read::<
                    (Arg2,),
                >(injector, error)),
            },
    {
        match injector.get::<Arg1>() {
            Ok(part1) => {
                assert(got::<Arg1>(injector, Ok::<Arg1, InjectError>(part1)));
                match <(Arg2,)>::read_from_injector(injector) {
                    Ok(others) => {
                        assert(read_parts::<(Arg2,)>(injector, others));
                        let (part2,) = others;
                        Ok((part1, part2))
                    },
                    Err(error) => {
                        assert(fails_to_read::<(Arg2,)>(injector, error));
                        Err(error)
                    },
                }
            },
            Err(error) => Err(error),
        }
    }

    fn dependencies_names() -> (pairs: Vec<(TypeId, String)>)
        ensures
            pairs@.len() == 2,
            is_key_of::<Arg1>(pairs@[0].0),
            call_ensures(Arg1::type_label, (), pairs@[0].1),
            is_key_of::<Arg2>(pairs@[1].0),
            call_ensures(Arg2::type_label, (), pairs@[1].1),
    {
        let mut pairs: Vec<(TypeId, String)> = Vec::new();
        pairs.push((key_of::<Arg1>(), Arg1::type_label()));
        pairs.push((key_of::<Arg2>(), Arg2::type_label()));
        pairs
    }
}

impl<
        Arg1: Clone + Named + 'static,
        Arg2: Clone + Named + 'static,
        Arg3: Clone + Named + 'static,
    > TupleInjectTypes for (Arg1, Arg2, Arg3) {
    /// The first component, as `get` gives it, and then the others, as
    /// the tuple of the others reads them. The reading fails where `get`
    /// fails for the first, with that failure, and otherwise where the
    /// reading of the others fails, with that failure.
    fn read_from_injector(injector: &Injector) -> (answer: Result<Self, InjectError>)
        ensures
            match answer {
                Ok(parts) => got::<Arg1>(injector, Ok::<Arg1, InjectError>(parts.0)) && read_parts::<
                    (Arg2, Arg3),
                >(injector, (parts.1, parts.2)),
                Err(error) => got::<Arg1>(injector, Err::<Arg1, InjectError>(error)) || ((exists|
                    first: Arg1,
                | #[trigger] got::<Arg1>(injector, Ok::<Arg1, InjectError>(first))) && fails_to_read::<
                    (Arg2, Arg3),
                >(injector, error)),
            },
    {
        match injector.get::<Arg1>() {
            Ok(part1) => {
                assert(got::<Arg1>(injector, Ok::<Arg1, InjectError>(part1)));
                match <(Arg2, Arg3)>::read_from_injector(injector) {
                    Ok(others) => {
                        assert(read_parts::<(Arg2, Arg3)>(injector, others));
                        let (part2, part3) = others;
                        Ok((part1, part2, part3))
                    },
                    Err(error) => {
                        assert(fails_to_read::<(Arg2, Arg3)>(injector, error));
                        Err(error)
                    },
                }
            },
            Err(error) => Err(error),
        }
    }

    fn dependencies_names() -> (pairs: Vec<(TypeId, String)>)
        ensures
            pairs@.len() == 3,
            is_key_of::<Arg1>(pairs@[0].0),
            call_ensures(Arg1::type_label, (), pairs@[0].1),
            is_key_of::<Arg2>(pairs@[1].0),
            call_ensures(Arg2::type_label, (), pairs@[1].1),
            is_key_of::<Arg3>(pairs@[2].0),
            call_ensures(Arg3::type_label, (), pairs@[2].1),
    {
        let mut pairs: Vec<(TypeId, String)> = Vec::new();
        pairs.push((key_of::<Arg1>(), Arg1::type_label()));
        pairs.push((key_of::<Arg2>(), Arg2::type_label()));
        pairs.push((key_of::<Arg3>(), Arg3::type_label()));
        pairs
    }
}

impl<
        Arg1: Clone + Named + 'static,
        Arg2: Clone + Named + 'static,
        Arg3: Clone + Named + 'static,
        Arg4: Clone + Named + 'static,
    > TupleInjectTypes for (Arg1, Arg2, Arg3, Arg4) {
    /// The first component, as `get` gives it, and then the others, as
    /// the tuple of the others reads them. The reading fails where `get`
    /// fails for the first, with that failure, and otherwise where the
    /// reading of the others fails, with that failure.
    fn read_from_injector(injector: &Injector) -> (answer: Result<Self, InjectError>)
        ensures
            match answer {
                Ok(parts) => got::<Arg1>(injector, Ok::<Arg1, InjectError>(parts.0)) && read_parts::<
                    (Arg2, Arg3, Arg4),
                >(injector, (parts.1, parts.2, parts.3)),
                Err(error) => got::<Arg1>(injector, Err::<Arg1, InjectError>(error)) || ((exists|
                    first: Arg1,
                | #[trigger] got::<Arg1>(injector, Ok::<Arg1, InjectError>(first))) && fails_to_read::<
                    (Arg2, Arg3, Arg4),
                >(injector, error)),
            },
    {
        match injector.get::<Arg1>() {
            Ok(part1) => {
                assert(got::<Arg1>(injector, Ok::<Arg1, InjectError>(part1)));
                match <(Arg2, Arg3, Arg4)>::read_from_injector(injector) {
                    Ok(others) => {
                        assert(read_parts::<(Arg2, Arg3, Arg4)>(injector, others));
                        let (part2, part3, part4) = others;
                        Ok((part1, part2, part3, part4))
                    },
                    Err(error) => {
                        assert(fails_to_read::<(Arg2, Arg3, Arg4)>(injector, error));
                        Err(error)
                    },
                }
            },
            Err(error) => Err(error),
        }
    }

    fn dependencies_names() -> (pairs: Vec<(TypeId, String)>)
        ensures
            pairs@.len() == 4,
            is_key_of::<Arg1>(pairs@[0].0),
            call_ensures(Arg1::type_label, (), pairs@[0].1),
            is_key_of::<Arg2>(pairs@[1].0),
            call_ensures(Arg2::type_label, (), pairs@[1].1),
            is_key_of::<Arg3>(pairs@[2].0),
            call_ensures(Arg3::type_label, (), pairs@[2].1),
            is_key_of::<Arg4>(pairs@[3].0),
            call_ensures(Arg4::type_label, (), pairs@[3].1),
    {
        let mut pairs: Vec<(TypeId, String)> = Vec::new();
        pairs.push((key_of::<Arg1>(), Arg1::type_label()));
        pairs.push((key_of::<Arg2>(), Arg2::type_label()));
        pairs.push((key_of::<Arg3>(), Arg3::type_label()));
        pairs.push((key_of::<Arg4>(), Arg4::type_label()));
        pairs
    }
}

impl<
        Arg1: Clone + Named + 'static,
        Arg2: Clone + Named + 'static,
        Arg3: Clone + Named + 'static,
        Arg4: Clone + Named + 'static,
        Arg5: Clone + Named + 'static,
    > TupleInjectTypes for (Arg1, Arg2, Arg3, Arg4, Arg5) {
    /// The first component, as `get` gives it, and then the others, as
    /// the tuple of the others reads them. The reading fails where `get`
    /// fails for the first, with that failure, and otherwise where the
    /// reading of the others fails, with that failure.
    fn read_from_injector(injector: &Injector) -> (answer: Result<Self, InjectError>)
        ensures
            match answer {
                Ok(parts) => got::<Arg1>(injector, Ok::<Arg1, InjectError>(parts.0)) && read_parts::<
                    (Arg2, Arg3, Arg4, Arg5),
                >(injector, (parts.1, parts.2, parts.3, parts.4)),
                Err(error) => got::<Arg1>(injector, Err::<Arg1, InjectError>(error)) || ((exists|
                    first: Arg1,
                | #[trigger] got::<Arg1>(injector, Ok::<Arg1, InjectError>(first))) && fails_to_read::<
                    (Arg2, Arg3, Arg4, Arg5),
                >(injector, error)),
            },
    {
        match injector.get::<Arg1>() {
            Ok(part1) => {
                assert(got::<Arg1>(injector, Ok::<Arg1, InjectError>(part1)));
                match <(Arg2, Arg3, Arg4, Arg5)>::read_from_injector(injector) {
                    Ok(others) => {
                        assert(read_parts::<(Arg2, Arg3, Arg4, Arg5)>(injector, others));
                        let (part2, part3, part4, part5) = others;
                        Ok((part1, part2, part3, part4, part5))
                    },
                    Err(error) => {
                        assert(fails_to_read::<(Arg2, Arg3, Arg4, Arg5)>(injector, error));
                        Err(error)
                    },
                }
            },
            Err(error) => Err(error),
        }
    }

    fn dependencies_names() -> (pairs: Vec<(TypeId, String)>)
        ensures
            pairs@.len() == 5,
            is_key_of::<Arg1>(pairs@[0].0),
            call_ensures(Arg1::type_label, (), pairs@[0].1),
            is_key_of::<Arg2>(pairs@[1].0),
            call_ensures(Arg2::type_label, (), pairs@[1].1),
            is_key_of::<Arg3>(pairs@[2].0),
            call_ensures(Arg3::type_label, (), pairs@[2].1),
            is_key_of::<Arg4>(pairs@[3].0),
            call_ensures(Arg4::type_label, (), pairs@[3].1),
            is_key_of::<Arg5>(pairs@[4].0),
            call_ensures(Arg5::type_label, (), pairs@[4].1),
    {
        let mut pairs: Vec<(TypeId, String)> = Vec::new();
        pairs.push((key_of::<Arg1>(), Arg1::type_label()));
        pairs.push((key_of::<Arg2>(), Arg2::type_label()));
        pairs.push((key_of::<Arg3>(), Arg3::type_label()));
        pairs.push((key_of::<Arg4>(), Arg4::type_label()));
        pairs.push((key_of::<Arg5>(), Arg5::type_label()));
        pairs
    }
}

impl<
        Arg1: Clone + Named + 'static,
        Arg2: Clone + Named + 'static,
        Arg3: Clone + Named + 'static,
        Arg4: Clone + Named + 'static,
        Arg5: Clone + Named + 'static,
        Arg6: Clone + Named + 'static,
    > TupleInjectTypes for (Arg1, Arg2, Arg3, Arg4, Arg5, Arg6) {
    /// The first component, as `get` gives it, and then the others, as
    /// the tuple of the others reads them. The reading fails where `get`
    /// fails for the first, with that failure, and otherwise where the
    /// reading of the others fails, with that failure.
    fn read_from_injector(injector: &Injector) -> (answer: Result<Self, InjectError>)
        ensures
            match answer {
                Ok(parts) => got::<Arg1>(injector, Ok::<Arg1, InjectError>(parts.0)) && read_parts::<
                    (Arg2, Arg3, Arg4, Arg5, Arg6),
                >(injector, (parts.1, parts.2, parts.3, parts.4, parts.5)),
                Err(error) => got::<Arg1>(injector, Err::<Arg1, InjectError>(error)) || ((exists|
                    first: Arg1,
                | #[trigger] got::<Arg1>(injector, Ok::<Arg1, InjectError>(first))) && fails_to_read::<
                    (Arg2, Arg3, Arg4, Arg5, Arg6),
                >(injector, error)),
            },
    {
        match injector.get::<Arg1>() {
            Ok(part1) => {
                assert(got::<Arg1>(injector, Ok::<Arg1, InjectError>(part1)));
                match <(Arg2, Arg3, Arg4, Arg5, Arg6)>::read_from_injector(injector) {
                    Ok(others) => {
                        assert(read_parts::<(Arg2, Arg3, Arg4, Arg5, Arg6)>(injector, others));
                        let (part2, part3, part4, part5, part6) = others;
                        Ok((part1, part2, part3, part4, part5, part6))
                    },
                    Err(error) => {
                        assert(fails_to_read::<(Arg2, Arg3, Arg4, Arg5, Arg6)>(injector, error));
                        Err(error)
                    },
                }
            },
            Err(error) => Err(error),
        }
    }

    fn dependencies_names() -> (pairs: Vec<(TypeId, String)>)
        ensures
            pairs@.len() == 6,
            is_key_of::<Arg1>(pairs@[0].0),
            call_ensures(Arg1::type_label, (), pairs@[0].1),
            is_key_of::<Arg2>(pairs@[1].0),
            call_ensures(Arg2::type_label, (), pairs@[1].1),
            is_key_of::<Arg3>(pairs@[2].0),
            call_ensures(Arg3::type_label, (), pairs@[2].1),
            is_key_of::<Arg4>(pairs@[3].0),
            call_ensures(Arg4::type_label, (), pairs@[3].1),
            is_key_of::<Arg5>(pairs@[4].0),
            call_ensures(Arg5::type_label, (), pairs@[4].1),
            is_key_of::<Arg6>(pairs@[5].0),
            call_ensures(Arg6::type_label, (), pairs@[5].1),
    {
        let mut pairs: Vec<(TypeId, String)> = Vec::new();
        pairs.push((key_of::<Arg1>(), Arg1::type_label()));
        pairs.push((key_of::<Arg2>(), Arg2::type_label()));
        pairs.push((key_of::<Arg3>(), Arg3::type_label()));
        pairs.push((key_of::<Arg4>(), Arg4::type_label()));
        pairs.push((key_of::<Arg5>(), Arg5::type_label()));
        pairs.push((key_of::<Arg6>(), Arg6::type_label()));
        pairs
    }
}

impl<
        Arg1: Clone + Named + 'static,
        Arg2: Clone + Named + 'static,
        Arg3: Clone + Named + 'static,
        Arg4: Clone + Named + 'static,
        Arg5: Clone + Named + 'static,
        Arg6: Clone + Named + 'static,
        Arg7: Clone + Named + 'static,
    > TupleInjectTypes for (Arg1, Arg2, Arg3, Arg4, Arg5, Arg6, Arg7) {
    /// The first component, as `get` gives it, and then the others, as
    /// the tuple of the others reads them. The reading fails where `get`
    /// fails for the first, with that failure, and otherwise where the
    /// reading of the others fails, with that failure.
    fn read_from_injector(injector: &Injector) -> (answer: Result<Self, InjectError>)
        ensures
            match answer {
                Ok(parts) => got::<Arg1>(injector, Ok::<Arg1, InjectError>(parts.0)) && read_parts::<
                    (Arg2, Arg3, Arg4, Arg5, Arg6, Arg7),
                >(injector, (parts.1, parts.2, parts.3, parts.4, parts.5, parts.6)),
                Err(error) => got::<Arg1>(injector, Err::<Arg1, InjectError>(error)) || ((exists|
                    first: Arg1,
                | #[trigger] got::<Arg1>(injector, Ok::<Arg1, InjectError>(first))) && fails_to_read::<
                    (Arg2, Arg3, Arg4, Arg5, Arg6, Arg7),
                >(injector, error)),
            },
    {
        match injector.get::<Arg1>() {
            Ok(part1) => {
                assert(got::<Arg1>(injector, Ok::<Arg1, InjectError>(part1)));
                match <(Arg2, Arg3, Arg4, Arg5, Arg6, Arg7)>::read_from_injector(injector) {
                    Ok(others) => {
                        assert(read_parts::<(Arg2, Arg3, Arg4, Arg5, Arg6, Arg7)>(injector, others));
                        let (part2, part3, part4, part5, part6, part7) = others;
                        Ok((part1, part2, part3, part4, part5, part6, part7))
                    },
                    Err(error) => {
                        assert(fails_to_read::<(Arg2, Arg3, Arg4, Arg5, Arg6, Arg7)>(injector, error));
                        Err(error)
                    },
                }
            },
            Err(error) => Err(error),
        }
    }

    fn dependencies_names() -> (pairs: Vec<(TypeId, String)>)
        ensures
            pairs@.len() == 7,
            is_key_of::<Arg1>(pairs@[0].0),
            call_ensures(Arg1::type_label, (), pairs@[0].1),
            is_key_of::<Arg2>(pairs@[1].0),
            call_ensures(Arg2::type_label, (), pairs@[1].1),
            is_key_of::<Arg3>(pairs@[2].0),
            call_ensures(Arg3::type_label, (), pairs@[2].1),
            is_key_of::<Arg4>(pairs@[3].0),
            call_ensures(Arg4::type_label, (), pairs@[3].1),
            is_key_of::<Arg5>(pairs@[4].0),
            call_ensures(Arg5::type_label, (), pairs@[4].1),
            is_key_of::<Arg6>(pairs@[5].0),
            call_ensures(Arg6::type_label, (), pairs@[5].1),
            is_key_of::<Arg7>(pairs@[6].0),
            call_ensures(Arg7::type_label, (), pairs@[6].1),
    {
        let mut pairs: Vec<(TypeId, String)> = Vec::new();
        pairs.push((key_of::<Arg1>(), Arg1::type_label()));
        pairs.push((key_of::<Arg2>(), Arg2::type_label()));
        pairs.push((key_of::<Arg3>(), Arg3::type_label()));
        pairs.push((key_of::<Arg4>(), Arg4::type_label()));
        pairs.push((key_of::<Arg5>(), Arg5::type_label()));
        pairs.push((key_of::<Arg6>(), Arg6::type_label()));
        pairs.push((key_of::<Arg7>(), Arg7::type_label()));
        pairs
    }
}

impl<
        Arg1: Clone + Named + 'static,
        Arg2: Clone + Named + 'static,
        Arg3: Clone + Named + 'static,
        Arg4: Clone + Named + 'static,
        Arg5: Clone + Named + 'static,
        Arg6: Clone + Named + 'static,
        Arg7: Clone + Named + 'static,
        Arg8: Clone + Named + 'static,
    > TupleInjectTypes for (Arg1, Arg2, Arg3, Arg4, Arg5, Arg6, Arg7, Arg8) {
    /// The first component, as `get` gives it, and then the others, as
    /// the tuple of the others reads them. The reading fails where `get`
    /// fails for the first, with that failure, and otherwise where the
    /// reading of the others fails, with that failure.
    fn read_from_injector(injector: &Injector) -> (answer: Result<Self, InjectError>)
        ensures
            match answer {
                Ok(parts) => got::<Arg1>(injector, Ok::<Arg1, InjectError>(parts.0)) && read_parts::<
                    (Arg2, Arg3, Arg4, Arg5, Arg6, Arg7, Arg8),
                >(injector, (parts.1, parts.2, parts.3, parts.4, parts.5, parts.6, parts.7)),
                Err(error) => got::<Arg1>(injector, Err::<Arg1, InjectError>(error)) || ((exists|
                    first: Arg1,
                | #[trigger] got::<Arg1>(injector, Ok::<Arg1, InjectError>(first))) && fails_to_read::<
                    (Arg2, Arg3, Arg4, Arg5, Arg6, Arg7, Arg8),
                >(injector, error)),
            },
    {
        match injector.get::<Arg1>() {
            Ok(part1) => {
                assert(got::<Arg1>(injector, Ok::<Arg1, InjectError>(part1)));
                match <(Arg2, Arg3, Arg4, Arg5, Arg6, Arg7, Arg8)>::read_from_injector(injector) {
                    Ok(others) => {
                        assert(read_parts::<(Arg2, Arg3, Arg4, Arg5, Arg6, Arg7, Arg8)>(injector, others));
                        let (part2, part3, part4, part5, part6, part7, part8) = others;
                        Ok((part1, part2, part3, part4, part5, part6, part7, part8))
                    },
                    Err(error) => {
                        assert(fails_to_read::<(Arg2, Arg3, Arg4, Arg5, Arg6, Arg7, Arg8)>(injector, error));
                        Err(error)
                    },
                }
            },
            Err(error) => Err(error),
        }
    }

    fn dependencies_names() -> (pairs: Vec<(TypeId, String)>)
        ensures
            pairs@.len() == 8,
            is_key_of::<Arg1>(pairs@[0].0),
            call_ensures(Arg1::type_label, (), pairs@[0].1),
            is_key_of::<Arg2>(pairs@[1].0),
            call_ensures(Arg2::type_label, (), pairs@[1].1),
            is_key_of::<Arg3>(pairs@[2].0),
            call_ensures(Arg3::type_label, (), pairs@[2].1),
            is_key_of::<Arg4>(pairs@[3].0),
            call_ensures(Arg4::type_label, (), pairs@[3].1),
            is_key_of::<Arg5>(pairs@[4].0),
            call_ensures(Arg5::type_label, (), pairs@[4].1),
            is_key_of::<Arg6>(pairs@[5].0),
            call_ensures(Arg6::type_label, (), pairs@[5].1),
            is_key_of::<Arg7>(pairs@[6].0),
            call_ensures(Arg7::type_label, (), pairs@[6].1),
            is_key_of::<Arg8>(pairs@[7].0),
            call_ensures(Arg8::type_label, (), pairs@[7].1),
    {
        let mut pairs: Vec<(TypeId, String)> = Vec::new();
        pairs.push((key_of::<Arg1>(), Arg1::type_label()));
        pairs.push((key_of::<Arg2>(), Arg2::type_label()));
        pairs.push((key_of::<Arg3>(), Arg3::type_label()));
        pairs.push((key_of::<Arg4>(), Arg4::type_label()));
        pairs.push((key_of::<Arg5>(), Arg5::type_label()));
        pairs.push((key_of::<Arg6>(), Arg6::type_label()));
        pairs.push((key_of::<Arg7>(), Arg7::type_label()));
        pairs.push((key_of::<Arg8>(), Arg8::type_label()));
        pairs
    }
}

impl<
        Arg1: Clone + Named + 'static,
        Arg2: Clone + Named + 'static,
        Arg3: Clone + Named + 'static,
        Arg4: Clone + Named + 'static,
        Arg5: Clone + Named + 'static,
        Arg6: Clone + Named + 'static,
        Arg7: Clone + Named + 'static,
        Arg8: Clone + Named + 'static,
        Arg9: Clone + Named + 'static,
    > TupleInjectTypes for (Arg1, Arg2, Arg3, Arg4, Arg5, Arg6, Arg7, Arg8, Arg9) {
    /// The first component, as `get` gives it, and then the others, as
    /// the tuple of the others reads them. The reading fails where `get`
    /// fails for the first, with that failure, and otherwise where the
    /// reading of the others fails, with that failure.
    fn read_from_injector(injector: &Injector) -> (answer: Result<Self, InjectError>)
        ensures
            match answer {
                Ok(parts) => got::<Arg1>(injector, Ok::<Arg1, InjectError>(parts.0)) && read_parts::<
                    (Arg2, Arg3, Arg4, Arg5, Arg6, Arg7, Arg8, Arg9),
                >(injector, (parts.1, parts.2, parts.3, parts.4, parts.5, parts.6, parts.7, parts.8)),
                Err(error) => got::<Arg1>(injector, Err::<Arg1, InjectError>(error)) || ((exists|
                    first: Arg1,
                | #[trigger] got::<Arg1>(injector, Ok::<Arg1, InjectError>(first))) && fails_to_read::<
                    (Arg2, Arg3, Arg4, Arg5, Arg6, Arg7, Arg8, Arg9),
                >(injector, error)),
            },
    {
        match injector.get::<Arg1>() {
            Ok(part1) => {
                assert(got::<Arg1>(injector, Ok::<Arg1, InjectError>(part1)));
                match <(Arg2, Arg3, Arg4, Arg5, Arg6, Arg7, Arg8, Arg9)>::read_from_injector(injector) {
                    Ok(others) => {
                        assert(read_parts::<(Arg2, Arg3, Arg4, Arg5, Arg6, Arg7, Arg8, Arg9)>(injector, others));
                        let (part2, part3, part4, part5, part6, part7, part8, part9) = others;
                        Ok((part1, part2, part3, part4, part5, part6, part7, part8, part9))
                    },
                    Err(error) => {
                        assert(fails_to_read::<(Arg2, Arg3, Arg4, Arg5, Arg6, Arg7, Arg8, Arg9)>(injector, error));
                        Err(error)
                    },
                }
            },
            Err(error) => Err(error),
        }
    }

    fn dependencies_names() -> (pairs: Vec<(TypeId, String)>)
        ensures
            pairs@.len() == 9,
            is_key_of::<Arg1>(pairs@[0].0),
            call_ensures(Arg1::type_label, (), pairs@[0].1),
            is_key_of::<Arg2>(pairs@[1].0),
            call_ensures(Arg2::type_label, (), pairs@[1].1),
            is_key_of::<Arg3>(pairs@[2].0),
            call_ensures(Arg3::type_label, (), pairs@[2].1),
            is_key_of::<Arg4>(pairs@[3].0),
            call_ensures(Arg4::type_label, (), pairs@[3].1),
            is_key_of::<Arg5>(pairs@[4].0),
            call_ensures(Arg5::type_label, (), pairs@[4].1),
            is_key_of::<Arg6>(pairs@[5].0),
            call_ensures(Arg6::type_label, (), pairs@[5].1),
            is_key_of::<Arg7>(pairs@[6].0),
            call_ensures(Arg7::type_label, (), pairs@[6].1),
            is_key_of::<Arg8>(pairs@[7].0),
            call_ensures(Arg8::type_label, (), pairs@[7].1),
            is_key_of::<Arg9>(pairs@[8].0),
            call_ensures(Arg9::type_label, (), pairs@[8].1),
    {
        let mut pairs: Vec<(TypeId, String)> = Vec::new();
        pairs.push((key_of::<Arg1>(), Arg1::type_label()));
        pairs.push((key_of::<Arg2>(), Arg2::type_label()));
        pairs.push((key_of::<Arg3>(), Arg3::type_label()));
        pairs.push((key_of::<Arg4>(), Arg4::type_label()));
        pairs.push((key_of::<Arg5>(), Arg5::type_label()));
        pairs.push((key_of::<Arg6>(), Arg6::type_label()));
        pairs.push((key_of::<Arg7>(), Arg7::type_label()));
        pairs.push((key_of::<Arg8>(), Arg8::type_label()));
        pairs.push((key_of::<Arg9>(), Arg9::type_label()));
        pairs
    }
}

impl<
        Arg1: Clone + Named + 'static,
        Arg2: Clone + Named + 'static,
        Arg3: Clone + Named + 'static,
        Arg4: Clone + Named + 'static,
        Arg5: Clone + Named + 'static,
        Arg6: Clone + Named + 'static,
        Arg7: Clone + Named + 'static,
        Arg8: Clone + Named + 'static,
        Arg9: Clone + Named + 'static,
        Arg10: Clone + Named + 'static,
    > TupleInjectTypes for (Arg1, Arg2, Arg3, Arg4, Arg5, Arg6, Arg7, Arg8, Arg9, Arg10) {
    /// The first component, as `get` gives it, and then the others, as
    /// the tuple of the others reads them. The reading fails where `get`
    /// fails for the first, with that failure, and otherwise where the
    /// reading of the others fails, with that failure.
    fn read_from_injector(injector: &Injector) -> (answer: Result<Self, InjectError>)
        ensures
            match answer {
                Ok(parts) => got::<Arg1>(injector, Ok::<Arg1, InjectError>(parts.0)) && read_parts::<
                    (Arg2, Arg3, Arg4, Arg5, Arg6, Arg7, Arg8, Arg9, Arg10),
                >(injector, (parts.1, parts.2, parts.3, parts.4, parts.5, parts.6, parts.7, parts.8, parts.9)),
                Err(error) => got::<Arg1>(injector, Err::<Arg1, InjectError>(error)) || ((exists|
                    first: Arg1,
                | #[trigger] got::<Arg1>(injector, Ok::<Arg1, InjectError>(first))) && fails_to_read::<
                    (Arg2, Arg3, Arg4, Arg5, Arg6, Arg7, Arg8, Arg9, Arg10),
                >(injector, error)),
            },
    {
        match injector.get::<Arg1>() {
            Ok(part1) => {
                assert(got::<Arg1>(injector, Ok::<Arg1, InjectError>(part1)));
                match <(Arg2, Arg3, Arg4, Arg5, Arg6, Arg7, Arg8, Arg9, Arg10)>::read_from_injector(injector) {
                    Ok(others) => {
                        assert(read_parts::<(Arg2, Arg3, Arg4, Arg5, Arg6, Arg7, Arg8, Arg9, Arg10)>(injector, others));
                        let (part2, part3, part4, part5, part6, part7, part8, part9, part10) = others;
                        Ok((part1, part2, part3, part4, part5, part6, part7, part8, part9, part10))
                    },
                    Err(error) => {
                        assert(fails_to_read::<(Arg2, Arg3, Arg4, Arg5, Arg6, Arg7, Arg8, Arg9, Arg10)>(injector, error));
                        Err(error)
                    },
                }
            },
            Err(error) => Err(error),
        }
    }

    fn dependencies_names() -> (pairs: Vec<(TypeId, String)>)
        ensures
            pairs@.len() == 10,
            is_key_of::<Arg1>(pairs@[0].0),
            call_ensures(Arg1::type_label, (), pairs@[0].1),
            is_key_of::<Arg2>(pairs@[1].0),
            call_ensures(Arg2::type_label, (), pairs@[1].1),
            is_key_of::<Arg3>(pairs@[2].0),
            call_ensures(Arg3::type_label, (), pairs@[2].1),
            is_key_of::<Arg4>(pairs@[3].0),
            call_ensures(Arg4::type_label, (), pairs@[3].1),
            is_key_of::<Arg5>(pairs@[4].0),
            call_ensures(Arg5::type_label, (), pairs@[4].1),
            is_key_of::<Arg6>(pairs@[5].0),
            call_ensures(Arg6::type_label, (), pairs@[5].1),
            is_key_of::<Arg7>(pairs@[6].0),
            call_ensures(Arg7::type_label, (), pairs@[6].1),
            is_key_of::<Arg8>(pairs@[7].0),
            call_ensures(Arg8::type_label, (), pairs@[7].1),
            is_key_of::<Arg9>(pairs@[8].0),
            call_ensures(Arg9::type_label, (), pairs@[8].1),
            is_key_of::<Arg10>(pairs@[9].0),
            call_ensures(Arg10::type_label, (), pairs@[9].1),
    {
        let mut pairs: Vec<(TypeId, String)> = Vec::new();
        pairs.push((key_of::<Arg1>(), Arg1::type_label()));
        pairs.push((key_of::<Arg2>(), Arg2::type_label()));
        pairs.push((key_of::<Arg3>(), Arg3::type_label()));
        pairs.push((key_of::<Arg4>(), Arg4::type_label()));
        pairs.push((key_of::<Arg5>(), Arg5::type_label()));
        pairs.push((key_of::<Arg6>(), Arg6::type_label()));
        pairs.push((key_of::<Arg7>(), Arg7::type_label()));
        pairs.push((key_of::<Arg8>(), Arg8::type_label()));
        pairs.push((key_of::<Arg9>(), Arg9::type_label()));
        pairs.push((key_of::<Arg10>(), Arg10::type_label()));
        pairs
    }
}

impl<
        Arg1: Clone + Named + 'static,
        Arg2: Clone + Named + 'static,
        Arg3: Clone + Named + 'static,
        Arg4: Clone + Named + 'static,
        Arg5: Clone + Named + 'static,
        Arg6: Clone + Named + 'static,
        Arg7: Clone + Named + 'static,
        Arg8: Clone + Named + 'static,
        Arg9: Clone + Named + 'static,
        Arg10: Clone + Named + 'static,
        Arg11: Clone + Named + 'static,
    > TupleInjectTypes for (Arg1, Arg2, Arg3, Arg4, Arg5, Arg6, Arg7, Arg8, Arg9, Arg10, Arg11) {
    /// The first component, as `get` gives it, and then the others, as
    /// the tuple of the others reads them. The reading fails where `get`
    /// fails for the first, with that failure, and otherwise where the
    /// reading of the others fails, with that failure.
    fn read_from_injector(injector: &Injector) -> (answer: Result<Self, InjectError>)
        ensures
            match answer {
                Ok(parts) => got::<Arg1>(injector, Ok::<Arg1, InjectError>(parts.0)) && read_parts::<
                    (Arg2, Arg3, Arg4, Arg5, Arg6, Arg7, Arg8, Arg9, Arg10, Arg11),
                >(injector, (parts.1, parts.2, parts.3, parts.4, parts.5, parts.6, parts.7, parts.8, parts.9, parts.10)),
                Err(error) => got::<Arg1>(injector, Err::<Arg1, InjectError>(error)) || ((exists|
                    first: Arg1,
                | #[trigger] got::<Arg1>(injector, Ok::<Arg1, InjectError>(first))) && fails_to_read::<
                    (Arg2, Arg3, Arg4, Arg5, Arg6, Arg7, Arg8, Arg9, Arg10, Arg11),
                >(injector, error)),
            },
    {
        match injector.get::<Arg1>() {
            Ok(part1) => {
                assert(got::<Arg1>(injector, Ok::<Arg1, InjectError>(part1)));
                match <(Arg2, Arg3, Arg4, Arg5, Arg6, Arg7, Arg8, Arg9, Arg10, Arg11)>::read_from_injector(injector) {
                    Ok(others) => {
                        assert(read_parts::<(Arg2, Arg3, Arg4, Arg5, Arg6, Arg7, Arg8, Arg9, Arg10, Arg11)>(injector, others));
                        let (part2, part3, part4, part5, part6, part7, part8, part9, part10, part11) = others;
                        Ok((part1, part2, part3, part4, part5, part6, part7, part8, part9, part10, part11))
                    },
                    Err(error) => {
                        assert(fails_to_read::<(Arg2, Arg3, Arg4, Arg5, Arg6, Arg7, Arg8, Arg9, Arg10, Arg11)>(injector, error));
                        Err(error)
                    },
                }
            },
            Err(error) => Err(error),
        }
    }

    fn dependencies_names() -> (pairs: Vec<(TypeId, String)>)
        ensures
            pairs@.len() == 11,
            is_key_of::<Arg1>(pairs@[0].0),
            call_ensures(Arg1::type_label, (), pairs@[0].1),
            is_key_of::<Arg2>(pairs@[1].0),
            call_ensures(Arg2::type_label, (), pairs@[1].1),
            is_key_of::<Arg3>(pairs@[2].0),
            call_ensures(Arg3::type_label, (), pairs@[2].1),
            is_key_of::<Arg4>(pairs@[3].0),
            call_ensures(Arg4::type_label, (), pairs@[3].1),
            is_key_of::<Arg5>(pairs@[4].0),
            call_ensures(Arg5::type_label, (), pairs@[4].1),
            is_key_of::<Arg6>(pairs@[5].0),
            call_ensures(Arg6::type_label, (), pairs@[5].1),
            is_key_of::<Arg7>(pairs@[6].0),
            call_ensures(Arg7::type_label, (), pairs@[6].1),
            is_key_of::<Arg8>(pairs@[7].0),
            call_ensures(Arg8::type_label, (), pairs@[7].1),
            is_key_of::<Arg9>(pairs@[8].0),
            call_ensures(Arg9::type_label, (), pairs@[8].1),
            is_key_of::<Arg10>(pairs@[9].0),
            call_ensures(Arg10::type_label, (), pairs@[9].1),
            is_key_of::<Arg11>(pairs@[10].0),
            call_ensures(Arg11::type_label, (), pairs@[10].1),
    {
        let mut pairs: Vec<(TypeId, String)> = Vec::new();
        pairs.push((key_of::<Arg1>(), Arg1::type_label()));
        pairs.push((key_of::<Arg2>(), Arg2::type_label()));
        pairs.push((key_of::<Arg3>(), Arg3::type_label()));
        pairs.push((key_of::<Arg4>(), Arg4::type_label()));
        pairs.push((key_of::<Arg5>(), Arg5::type_label()));
        pairs.push((key_of::<Arg6>(), Arg6::type_label()));
        pairs.push((key_of::<Arg7>(), Arg7::type_label()));
        pairs.push((key_of::<Arg8>(), Arg8::type_label()));
        pairs.push((key_of::<Arg9>(), Arg9::type_label()));
        pairs.push((key_of::<Arg10>(), Arg10::type_label()));
        pairs.push((key_of::<Arg11>(), Arg11::type_label()));
        pairs
    }
}

impl<
        Arg1: Clone + Named + 'static,
        Arg2: Clone + Named + 'static,
        Arg3: Clone + Named + 'static,
        Arg4: Clone + Named + 'static,
        Arg5: Clone + Named + 'static,
        Arg6: Clone + Named + 'static,
        Arg7: Clone + Named + 'static,
        Arg8: Clone + Named + 'static,
        Arg9: Clone + Named + 'static,
        Arg10: Clone + Named + 'static,
        Arg11: Clone + Named + 'static,
        Arg12: Clone + Named + 'static,
    > TupleInjectTypes for (Arg1, Arg2, Arg3, Arg4, Arg5, Arg6, Arg7, Arg8, Arg9, Arg10, Arg11, Arg12) {
    /// The first component, as `get` gives it, and then the others, as
    /// the tuple of the others reads them. The reading fails where `get`
    /// fails for the first, with that failure, and otherwise where the
    /// reading of the others fails, with that failure.
    fn read_from_injector(injector: &Injector) -> (answer: Result<Self, InjectError>)
        ensures
            match answer {
                Ok(parts) => got::<Arg1>(injector, Ok::<Arg1, InjectError>(parts.0)) && read_parts::<
                    (Arg2, Arg3, Arg4, Arg5, Arg6, Arg7, Arg8, Arg9, Arg10, Arg11, Arg12),
                >(injector, (parts.1, parts.2, parts.3, parts.4, parts.5, parts.6, parts.7, parts.8, parts.9, parts.10, parts.11)),
                Err(error) => got::<Arg1>(injector, Err::<Arg1, InjectError>(error)) || ((exists|
                    first: Arg1,
                | #[trigger] got::<Arg1>(injector, Ok::<Arg1, InjectError>(first))) && fails_to_read::<
                    (Arg2, Arg3, Arg4, Arg5, Arg6, Arg7, Arg8, Arg9, Arg10, Arg11, Arg12),
                >(injector, error)),
            },
    {
        match injector.get::<Arg1>() {
            Ok(part1) => {
                assert(got::<Arg1>(injector, Ok::<Arg1, InjectError>(part1)));
                match <(Arg2, Arg3, Arg4, Arg5, Arg6, Arg7, Arg8, Arg9, Arg10, Arg11, Arg12)>::read_from_injector(injector) {
                    Ok(others) => {
                        assert(read_parts::<(Arg2, Arg3, Arg4, Arg5, Arg6, Arg7, Arg8, Arg9, Arg10, Arg11, Arg12)>(injector, others));
                        let (part2, part3, part4, part5, part6, part7, part8, part9, part10, part11, part12) = others;
                        Ok((part1, part2, part3, part4, part5, part6, part7, part8, part9, part10, part11, part12))
                    },
                    Err(error) => {
                        assert(fails_to_read::<(Arg2, Arg3, Arg4, Arg5, Arg6, Arg7, Arg8, Arg9, Arg10, Arg11, Arg12)>(injector, error));
                        Err(error)
                    },
                }
            },
            Err(error) => Err(error),
        }
    }

    fn dependencies_names() -> (pairs: Vec<(TypeId, String)>)
        ensures
            pairs@.len() == 12,
            is_key_of::<Arg1>(pairs@[0].0),
            call_ensures(Arg1::type_label, (), pairs@[0].1),
            is_key_of::<Arg2>(pairs@[1].0),
            call_ensures(Arg2::type_label, (), pairs@[1].1),
            is_key_of::<Arg3>(pairs@[2].0),
            call_ensures(Arg3::type_label, (), pairs@[2].1),
            is_key_of::<Arg4>(pairs@[3].0),
            call_ensures(Arg4::type_label, (), pairs@[3].1),
            is_key_of::<Arg5>(pairs@[4].0),
            call_ensures(Arg5::type_label, (), pairs@[4].1),
            is_key_of::<Arg6>(pairs@[5].0),
            call_ensures(Arg6::type_label, (), pairs@[5].1),
            is_key_of::<Arg7>(pairs@[6].0),
            call_ensures(Arg7::type_label, (), pairs@[6].1),
            is_key_of::<Arg8>(pairs@[7].0),
            call_ensures(Arg8::type_label, (), pairs@[7].1),
            is_key_of::<Arg9>(pairs@[8].0),
            call_ensures(Arg9::type_label, (), pairs@[8].1),
            is_key_of::<Arg10>(pairs@[9].0),
            call_ensures(Arg10::type_label, (), pairs@[9].1),
            is_key_of::<Arg11>(pairs@[10].0),
            call_ensures(Arg11::type_label, (), pairs@[10].1),
            is_key_of::<Arg12>(pairs@[11].0),
            call_ensures(Arg12::type_label, (), pairs@[11].1),
    {
        let mut pairs: Vec<(TypeId, String)> = Vec::new();
        pairs.push((key_of::<Arg1>(), Arg1::type_label()));
        pairs.push((key_of::<Arg2>(), Arg2::type_label()));
        pairs.push((key_of::<Arg3>(), Arg3::type_label()));
        pairs.push((key_of::<Arg4>(), Arg4::type_label()));
        pairs.push((key_of::<Arg5>(), Arg5::type_label()));
        pairs.push((key_of::<Arg6>(), Arg6::type_label()));
        pairs.push((key_of::<Arg7>(), Arg7::type_label()));
        pairs.push((key_of::<Arg8>(), Arg8::type_label()));
        pairs.push((key_of::<Arg9>(), Arg9::type_label()));
        pairs.push((key_of::<Arg10>(), Arg10::type_label()));
        pairs.push((key_of::<Arg11>(), Arg11::type_label()));
        pairs.push((key_of::<Arg12>(), Arg12::type_label()));
        pairs
    }
}

impl<
        Arg1: Clone + Named + 'static,
        Arg2: Clone + Named + 'static,
        Arg3: Clone + Named + 'static,
        Arg4: Clone + Named + 'static,
        Arg5: Clone + Named + 'static,
        Arg6: Clone + Named + 'static,
        Arg7: Clone + Named + 'static,
        Arg8: Clone + Named + 'static,
        Arg9: Clone + Named + 'static,
        Arg10: Clone + Named + 'static,
        Arg11: Clone + Named + 'static,
        Arg12: Clone + Named + 'static,
        Arg13: Clone + Named + 'static,
    > TupleInjectTypes for (Arg1, Arg2, Arg3, Arg4, Arg5, Arg6, Arg7, Arg8, Arg9, Arg10, Arg11, Arg12, Arg13) {
    /// The first component, as `get` gives it, and then the others, as
    /// the tuple of the others reads them. The reading fails where `get`
    /// fails for the first, with that failure, and otherwise where the
    /// reading of the others fails, with that failure.
    fn read_from_injector(injector: &Injector) -> (answer: Result<Self, InjectError>)
        ensures
            match answer {
                Ok(parts) => got::<Arg1>(injector, Ok::<Arg1, InjectError>(parts.0)) && read_parts::<
                    (Arg2, Arg3, Arg4, Arg5, Arg6, Arg7, Arg8, Arg9, Arg10, Arg11, Arg12, Arg13),
                >(injector, (parts.1, parts.2, parts.3, parts.4, parts.5, parts.6, parts.7, parts.8, parts.9, parts.10, parts.11, parts.12)),
                Err(error) => got::<Arg1>(injector, Err::<Arg1, InjectError>(error)) || ((exists|
                    first: Arg1,
                | #[trigger] got::<Arg1>(injector, Ok::<Arg1, InjectError>(first))) && fails_to_read::<
                    (Arg2, Arg3, Arg4, Arg5, Arg6, Arg7, Arg8, Arg9, Arg10, Arg11, Arg12, Arg13),
                >(injector, error)),
            },
    {
        match injector.get::<Arg1>() {
            Ok(part1) => {
                assert(got::<Arg1>(injector, Ok::<Arg1, InjectError>(part1)));
                match <(Arg2, Arg3, Arg4, Arg5, Arg6, Arg7, Arg8, Arg9, Arg10, Arg11, Arg12, Arg13)>::read_from_injector(injector) {
                    Ok(others) => {
                        assert(read_parts::<(Arg2, Arg3, Arg4, Arg5, Arg6, Arg7, Arg8, Arg9, Arg10, Arg11, Arg12, Arg13)>(injector, others));
                        let (part2, part3, part4, part5, part6, part7, part8, part9, part10, part11, part12, part13) = others;
                        Ok((part1, part2, part3, part4, part5, part6, part7, part8, part9, part10, part11, part12, part13))
                    },
                    Err(error) => {
                        assert(fails_to_read::<(Arg2, Arg3, Arg4, Arg5, Arg6, Arg7, Arg8, Arg9, Arg10, Arg11, Arg12, Arg13)>(injector, error));
                        Err(error)
                    },
                }
            },
            Err(error) => Err(error),
        }
    }

    fn dependencies_names() -> (pairs: Vec<(TypeId, String)>)
        ensures
            pairs@.len() == 13,
            is_key_of::<Arg1>(pairs@[0].0),
            call_ensures(Arg1::type_label, (), pairs@[0].1),
            is_key_of::<Arg2>(pairs@[1].0),
            call_ensures(Arg2::type_label, (), pairs@[1].1),
            is_key_of::<Arg3>(pairs@[2].0),
            call_ensures(Arg3::type_label, (), pairs@[2].1),
            is_key_of::<Arg4>(pairs@[3].0),
            call_ensures(Arg4::type_label, (), pairs@[3].1),
            is_key_of::<Arg5>(pairs@[4].0),
            call_ensures(Arg5::type_label, (), pairs@[4].1),
            is_key_of::<Arg6>(pairs@[5].0),
            call_ensures(Arg6::type_label, (), pairs@[5].1),
            is_key_of::<Arg7>(pairs@[6].0),
            call_ensures(Arg7::type_label, (), pairs@[6].1),
            is_key_of::<Arg8>(pairs@[7].0),
            call_ensures(Arg8::type_label, (), pairs@[7].1),
            is_key_of::<Arg9>(pairs@[8].0),
            call_ensures(Arg9::type_label, (), pairs@[8].1),
            is_key_of::<Arg10>(pairs@[9].0),
            call_ensures(Arg10::type_label, (), pairs@[9].1),
            is_key_of::<Arg11>(pairs@[10].0),
            call_ensures(Arg11::type_label, (), pairs@[10].1),
            is_key_of::<Arg12>(pairs@[11].0),
            call_ensures(Arg12::type_label, (), pairs@[11].1),
            is_key_of::<Arg13>(pairs@[12].0),
            call_ensures(Arg13::type_label, (), pairs@[12].1),
    {
        let mut pairs: Vec<(TypeId, String)> = Vec::new();
        pairs.push((key_of::<Arg1>(), Arg1::type_label()));
        pairs.push((key_of::<Arg2>(), Arg2::type_label()));
        pairs.push((key_of::<Arg3>(), Arg3::type_label()));
        pairs.push((key_of::<Arg4>(), Arg4::type_label()));
        pairs.push((key_of::<Arg5>(), Arg5::type_label()));
        pairs.push((key_of::<Arg6>(), Arg6::type_label()));
        pairs.push((key_of::<Arg7>(), Arg7::type_label()));
        pairs.push((key_of::<Arg8>(), Arg8::type_label()));
        pairs.push((key_of::<Arg9>(), Arg9::type_label()));
        pairs.push((key_of::<Arg10>(), Arg10::type_label()));
        pairs.push((key_of::<Arg11>(), Arg11::type_label()));
        pairs.push((key_of::<Arg12>(), Arg12::type_label()));
        pairs.push((key_of::<Arg13>(), Arg13::type_label()));
        pairs
    }
}

impl<
        Arg1: Clone + Named + 'static,
        Arg2: Clone + Named + 'static,
        Arg3: Clone + Named + 'static,
        Arg4: Clone + Named + 'static,
        Arg5: Clone + Named + 'static,
        Arg6: Clone + Named + 'static,
        Arg7: Clone + Named + 'static,
        Arg8: Clone + Named + 'static,
        Arg9: Clone + Named + 'static,
        Arg10: Clone + Named + 'static,
        Arg11: Clone + Named + 'static,
        Arg12: Clone + Named + 'static,
        Arg13: Clone + Named + 'static,
        Arg14: Clone + Named + 'static,
    > TupleInjectTypes for (Arg1, Arg2, Arg3, Arg4, Arg5, Arg6, Arg7, Arg8, Arg9, Arg10, Arg11, Arg12, Arg13, Arg14) {
    /// The first component, as `get` gives it, and then the others, as
    /// the tuple of the others reads them. The reading fails where `get`
    /// fails for the first, with that failure, and otherwise where the
    /// reading of the others fails, with that failure.
    fn read_from_injector(injector: &Injector) -> (answer: Result<Self, InjectError>)
        ensures
            match answer {
                Ok(parts) => got::<Arg1>(injector, Ok::<Arg1, InjectError>(parts.0)) && read_parts::<
                    (Arg2, Arg3, Arg4, Arg5, Arg6, Arg7, Arg8, Arg9, Arg10, Arg11, Arg12, Arg13, Arg14),
                >(injector, (parts.1, parts.2, parts.3, parts.4, parts.5, parts.6, parts.7, parts.8, parts.9, parts.10, parts.11, parts.12, parts.13)),
                Err(error) => got::<Arg1>(injector, Err::<Arg1, InjectError>(error)) || ((exists|
                    first: Arg1,
                | #[trigger] got::<Arg1>(injector, Ok::<Arg1, InjectError>(first))) && fails_to_read::<
                    (Arg2, Arg3, Arg4, Arg5, Arg6, Arg7, Arg8, Arg9, Arg10, Arg11, Arg12, Arg13, Arg14),
                >(injector, error)),
            },
    {
        match injector.get::<Arg1>() {
            Ok(part1) => {
                assert(got::<Arg1>(injector, Ok::<Arg1, InjectError>(part1)));
                match <(Arg2, Arg3, Arg4, Arg5, Arg6, Arg7, Arg8, Arg9, Arg10, Arg11, Arg12, Arg13, Arg14)>::read_from_injector(injector) {
                    Ok(others) => {
                        assert(read_parts::<(Arg2, Arg3, Arg4, Arg5, Arg6, Arg7, Arg8, Arg9, Arg10, Arg11, Arg12, Arg13, Arg14)>(injector, others));
                        let (part2, part3, part4, part5, part6, part7, part8, part9, part10, part11, part12, part13, part14) = others;
                        Ok((part1, part2, part3, part4, part5, part6, part7, part8, part9, part10, part11, part12, part13, part14))
                    },
                    Err(error) => {
                        assert(fails_to_read::<(Arg2, Arg3, Arg4, Arg5, Arg6, Arg7, Arg8, Arg9, Arg10, Arg11, Arg12, Arg13, Arg14)>(injector, error));
                        Err(error)
                    },
                }
            },
            Err(error) => Err(error),
        }
    }

    fn dependencies_names() -> (pairs: Vec<(TypeId, String)>)
        ensures
            pairs@.len() == 14,
            is_key_of::<Arg1>(pairs@[0].0),
            call_ensures(Arg1::type_label, (), pairs@[0].1),
            is_key_of::<Arg2>(pairs@[1].0),
            call_ensures(Arg2::type_label, (), pairs@[1].1),
            is_key_of::<Arg3>(pairs@[2].0),
            call_ensures(Arg3::type_label, (), pairs@[2].1),
            is_key_of::<Arg4>(pairs@[3].0),
            call_ensures(Arg4::type_label, (), pairs@[3].1),
            is_key_of::<Arg5>(pairs@[4].0),
            call_ensures(Arg5::type_label, (), pairs@[4].1),
            is_key_of::<Arg6>(pairs@[5].0),
            call_ensures(Arg6::type_label, (), pairs@[5].1),
            is_key_of::<Arg7>(pairs@[6].0),
            call_ensures(Arg7::type_label, (), pairs@[6].1),
            is_key_of::<Arg8>(pairs@[7].0),
            call_ensures(Arg8::type_label, (), pairs@[7].1),
            is_key_of::<Arg9>(pairs@[8].0),
            call_ensures(Arg9::type_label, (), pairs@[8].1),
            is_key_of::<Arg10>(pairs@[9].0),
            call_ensures(Arg10::type_label, (), pairs@[9].1),
            is_key_of::<Arg11>(pairs@[10].0),
            call_ensures(Arg11::type_label, (), pairs@[10].1),
            is_key_of::<Arg12>(pairs@[11].0),
            call_ensures(Arg12::type_label, (), pairs@[11].1),
            is_key_of::<Arg13>(pairs@[12].0),
            call_ensures(Arg13::type_label, (), pairs@[12].1),
            is_key_of::<Arg14>(pairs@[13].0),
            call_ensures(Arg14::type_label, (), pairs@[13].1),
    {
        let mut pairs: Vec<(TypeId, String)> = Vec::new();
        pairs.push((key_of::<Arg1>(), Arg1::type_label()));
        pairs.push((key_of::<Arg2>(), Arg2::type_label()));
        pairs.push((key_of::<Arg3>(), Arg3::type_label()));
        pairs.push((key_of::<Arg4>(), Arg4::type_label()));
        pairs.push((key_of::<Arg5>(), Arg5::type_label()));
        pairs.push((key_of::<Arg6>(), Arg6::type_label()));
        pairs.push((key_of::<Arg7>(), Arg7::type_label()));
        pairs.push((key_of::<Arg8>(), Arg8::type_label()));
        pairs.push((key_of::<Arg9>(), Arg9::type_label()));
        pairs.push((key_of::<Arg10>(), Arg10::type_label()));
        pairs.push((key_of::<Arg11>(), Arg11::type_label()));
        pairs.push((key_of::<Arg12>(), Arg12::type_label()));
        pairs.push((key_of::<Arg13>(), Arg13::type_label()));
        pairs.push((key_of::<Arg14>(), Arg14::type_label()));
        pairs
    }
}

impl<
        Arg1: Clone + Named + 'static,
        Arg2: Clone + Named + 'static,
        Arg3: Clone + Named + 'static,
        Arg4: Clone + Named + 'static,
        Arg5: Clone + Named + 'static,
        Arg6: Clone + Named + 'static,
        Arg7: Clone + Named + 'static,
        Arg8: Clone + Named + 'static,
        Arg9: Clone + Named + 'static,
        Arg10: Clone + Named + 'static,
        Arg11: Clone + Named + 'static,
        Arg12: Clone + Named + 'static,
        Arg13: Clone + Named + 'static,
        Arg14: Clone + Named + 'static,
        Arg15: Clone + Named + 'static,
    > TupleInjectTypes for (Arg1, Arg2, Arg3, Arg4, Arg5, Arg6, Arg7, Arg8, Arg9, Arg10, Arg11, Arg12, Arg13, Arg14, Arg15) {
    /// The first component, as `get` gives it, and then the others, as
    /// the tuple of the others reads them. The reading fails where `get`
    /// fails for the first, with that failure, and otherwise where the
    /// reading of the others fails, with that failure.
    fn read_from_injector(injector: &Injector) -> (answer: Result<Self, InjectError>)
        ensures
            match answer {
                Ok(parts) => got::<Arg1>(injector, Ok::<Arg1, InjectError>(parts.0)) && read_parts::<
                    (Arg2, Arg3, Arg4, Arg5, Arg6, Arg7, Arg8, Arg9, Arg10, Arg11, Arg12, Arg13, Arg14, Arg15),
                >(injector, (parts.1, parts.2, parts.3, parts.4, parts.5, parts.6, parts.7, parts.8, parts.9, parts.10, parts.11, parts.12, parts.13, parts.14)),
                Err(error) => got::<Arg1>(injector, Err::<Arg1, InjectError>(error)) || ((exists|
                    first: Arg1,
                | #[trigger] got::<Arg1>(injector, Ok::<Arg1, InjectError>(first))) && fails_to_read::<
                    (Arg2, Arg3, Arg4, Arg5, Arg6, Arg7, Arg8, Arg9, Arg10, Arg11, Arg12, Arg13, Arg14, Arg15),
                >(injector, error)),
            },
    {
        match injector.get::<Arg1>() {
            Ok(part1) => {
                assert(got::<Arg1>(injector, Ok::<Arg1, InjectError>(part1)));
                match <(Arg2, Arg3, Arg4, Arg5, Arg6, Arg7, Arg8, Arg9, Arg10, Arg11, Arg12, Arg13, Arg14, Arg15)>::read_from_injector(injector) {
                    Ok(others) => {
                        assert(read_parts::<(Arg2, Arg3, Arg4, Arg5, Arg6, Arg7, Arg8, Arg9, Arg10, Arg11, Arg12, Arg13, Arg14, Arg15)>(injector, others));
                        let (part2, part3, part4, part5, part6, part7, part8, part9, part10, part11, part12, part13, part14, part15) = others;
                        Ok((part1, part2, part3, part4, part5, part6, part7, part8, part9, part10, part11, part12, part13, part14, part15))
                    },
                    Err(error) => {
                        assert(fails_to_read::<(Arg2, Arg3, Arg4, Arg5, Arg6, Arg7, Arg8, Arg9, Arg10, Arg11, Arg12, Arg13, Arg14, Arg15)>(injector, error));
                        Err(error)
                    },
                }
            },
            Err(error) => Err(error),
        }
    }

    fn dependencies_names() -> (pairs: Vec<(TypeId, String)>)
        ensures
            pairs@.len() == 15,
            is_key_of::<Arg1>(pairs@[0].0),
            call_ensures(Arg1::type_label, (), pairs@[0].1),
            is_key_of::<Arg2>(pairs@[1].0),
            call_ensures(Arg2::type_label, (), pairs@[1].1),
            is_key_of::<Arg3>(pairs@[2].0),
            call_ensures(Arg3::type_label, (), pairs@[2].1),
            is_key_of::<Arg4>(pairs@[3].0),
            call_ensures(Arg4::type_label, (), pairs@[3].1),
            is_key_of::<Arg5>(pairs@[4].0),
            call_ensures(Arg5::type_label, (), pairs@[4].1),
            is_key_of::<Arg6>(pairs@[5].0),
            call_ensures(Arg6::type_label, (), pairs@[5].1),
            is_key_of::<Arg7>(pairs@[6].0),
            call_ensures(Arg7::type_label, (), pairs@[6].1),
            is_key_of::<Arg8>(pairs@[7].0),
            call_ensures(Arg8::type_label, (), pairs@[7].1),
            is_key_of::<Arg9>(pairs@[8].0),
            call_ensures(Arg9::type_label, (), pairs@[8].1),
            is_key_of::<Arg10>(pairs@[9].0),
            call_ensures(Arg10::type_label, (), pairs@[9].1),
            is_key_of::<Arg11>(pairs@[10].0),
            call_ensures(Arg11::type_label, (), pairs@[10].1),
            is_key_of::<Arg12>(pairs@[11].0),
            call_ensures(Arg12::type_label, (), pairs@[11].1),
            is_key_of::<Arg13>(pairs@[12].0),
            call_ensures(Arg13::type_label, (), pairs@[12].1),
            is_key_of::<Arg14>(pairs@[13].0),
            call_ensures(Arg14::type_label, (), pairs@[13].1),
            is_key_of::<Arg15>(pairs@[14].0),
            call_ensures(Arg15::type_label, (), pairs@[14].1),
    {
        let mut pairs: Vec<(TypeId, String)> = Vec::new();
        pairs.push((key_of::<Arg1>(), Arg1::type_label()));
        pairs.push((key_of::<Arg2>(), Arg2::type_label()));
        pairs.push((key_of::<Arg3>(), Arg3::type_label()));
        pairs.push((key_of::<Arg4>(), Arg4::type_label()));
        pairs.push((key_of::<Arg5>(), Arg5::type_label()));
        pairs.push((key_of::<Arg6>(), Arg6::type_label()));
        pairs.push((key_of::<Arg7>(), Arg7::type_label()));
        pairs.push((key_of::<Arg8>(), Arg8::type_label()));
        pairs.push((key_of::<Arg9>(), Arg9::type_label()));
        pairs.push((key_of::<Arg10>(), Arg10::type_label()));
        pairs.push((key_of::<Arg11>(), Arg11::type_label()));
        pairs.push((key_of::<Arg12>(), Arg12::type_label()));
        pairs.push((key_of::<Arg13>(), Arg13::type_label()));
        pairs.push((key_of::<Arg14>(), Arg14::type_label()));
        pairs.push((key_of::<Arg15>(), Arg15::type_label()));
        pairs
    }
}

impl<
        Arg1: Clone + Named + 'static,
        Arg2: Clone + Named + 'static,
        Arg3: Clone + Named + 'static,
        Arg4: Clone + Named + 'static,
        Arg5: Clone + Named + 'static,
        Arg6: Clone + Named + 'static,
        Arg7: Clone + Named + 'static,
        Arg8: Clone + Named + 'static,
        Arg9: Clone + Named + 'static,
        Arg10: Clone + Named + 'static,
        Arg11: Clone + Named + 'static,
        Arg12: Clone + Named + 'static,
        Arg13: Clone + Named + 'static,
        Arg14: Clone + Named + 'static,
        Arg15: Clone + Named + 'static,
        Arg16: Clone + Named + 'static,
    > TupleInjectTypes for (Arg1, Arg2, Arg3, Arg4, Arg5, Arg6, Arg7, Arg8, Arg9, Arg10, Arg11, Arg12, Arg13, Arg14, Arg15, Arg16) {
    /// The first component, as `get` gives it, and then the others, as
    /// the tuple of the others reads them. The reading fails where `get`
    /// fails for the first, with that failure, and otherwise where the
    /// reading of the others fails, with that failure.
    fn read_from_injector(injector: &Injector) -> (answer: Result<Self, InjectError>)
        ensures
            match answer {
                Ok(parts) => got::<Arg1>(injector, Ok::<Arg1, InjectError>(parts.0)) && read_parts::<
                    (Arg2, Arg3, Arg4, Arg5, Arg6, Arg7, Arg8, Arg9, Arg10, Arg11, Arg12, Arg13, Arg14, Arg15, Arg16),
                >(injector, (parts.1, parts.2, parts.3, parts.4, parts.5, parts.6, parts.7, parts.8, parts.9, parts.10, parts.11, parts.12, parts.13, parts.14, parts.15)),
                Err(error) => got::<Arg1>(injector, Err::<Arg1, InjectError>(error)) || ((exists|
                    first: Arg1,
                | #[trigger] got::<Arg1>(injector, Ok::<Arg1, InjectError>(first))) && fails_to_read::<
                    (Arg2, Arg3, Arg4, Arg5, Arg6, Arg7, Arg8, Arg9, Arg10, Arg11, Arg12, Arg13, Arg14, Arg15, Arg16),
                >(injector, error)),
            },
    {
        match injector.get::<Arg1>() {
            Ok(part1) => {
                assert(got::<Arg1>(injector, Ok::<Arg1, InjectError>(part1)));
                match <(Arg2, Arg3, Arg4, Arg5, Arg6, Arg7, Arg8, Arg9, Arg10, Arg11, Arg12, Arg13, Arg14, Arg15, Arg16)>::read_from_injector(injector) {
                    Ok(others) => {
                        assert(read_parts::<(Arg2, Arg3, Arg4, Arg5, Arg6, Arg7, Arg8, Arg9, Arg10, Arg11, Arg12, Arg13, Arg14, Arg15, Arg16)>(injector, others));
                        let (part2, part3, part4, part5, part6, part7, part8, part9, part10, part11, part12, part13, part14, part15, part16) = others;
                        Ok((part1, part2, part3, part4, part5, part6, part7, part8, part9, part10, part11, part12, part13, part14, part15, part16))
                    },
                    Err(error) => {
                        assert(fails_to_read::<(Arg2, Arg3, Arg4, Arg5, Arg6, Arg7, Arg8, Arg9, Arg10, Arg11, Arg12, Arg13, Arg14, Arg15, Arg16)>(injector, error));
                        Err(error)
                    },
                }
            },
            Err(error) => Err(error),
        }
    }

    fn dependencies_names() -> (pairs: Vec<(TypeId, String)>)
        ensures
            pairs@.len() == 16,
            is_key_of::<Arg1>(pairs@[0].0),
            call_ensures(Arg1::type_label, (), pairs@[0].1),
            is_key_of::<Arg2>(pairs@[1].0),
            call_ensures(Arg2::type_label, (), pairs@[1].1),
            is_key_of::<Arg3>(pairs@[2].0),
            call_ensures(Arg3::type_label, (), pairs@[2].1),
            is_key_of::<Arg4>(pairs@[3].0),
            call_ensures(Arg4::type_label, (), pairs@[3].1),
            is_key_of::<Arg5>(pairs@[4].0),
            call_ensures(Arg5::type_label, (), pairs@[4].1),
            is_key_of::<Arg6>(pairs@[5].0),
            call_ensures(Arg6::type_label, (), pairs@[5].1),
            is_key_of::<Arg7>(pairs@[6].0),
            call_ensures(Arg7::type_label, (), pairs@[6].1),
            is_key_of::<Arg8>(pairs@[7].0),
            call_ensures(Arg8::type_label, (), pairs@[7].1),
            is_key_of::<Arg9>(pairs@[8].0),
            call_ensures(Arg9::type_label, (), pairs@[8].1),
            is_key_of::<Arg10>(pairs@[9].0),
            call_ensures(Arg10::type_label, (), pairs@[9].1),
            is_key_of::<Arg11>(pairs@[10].0),
            call_ensures(Arg11::type_label, (), pairs@[10].1),
            is_key_of::<Arg12>(pairs@[11].0),
            call_ensures(Arg12::type_label, (), pairs@[11].1),
            is_key_of::<Arg13>(pairs@[12].0),
            call_ensures(Arg13::type_label, (), pairs@[12].1),
            is_key_of::<Arg14>(pairs@[13].0),
            call_ensures(Arg14::type_label, (), pairs@[13].1),
            is_key_of::<Arg15>(pairs@[14].0),
            call_ensures(Arg15::type_label, (), pairs@[14].1),
            is_key_of::<Arg16>(pairs@[15].0),
            call_ensures(Arg16::type_label, (), pairs@[15].1),
    {
        let mut pairs: Vec<(TypeId, String)> = Vec::new();
        pairs.push((key_of::<Arg1>(), Arg1::type_label()));
        pairs.push((key_of::<Arg2>(), Arg2::type_label()));
        pairs.push((key_of::<Arg3>(), Arg3::type_label()));
        pairs.push((key_of::<Arg4>(), Arg4::type_label()));
        pairs.push((key_of::<Arg5>(), Arg5::type_label()));
        pairs.push((key_of::<Arg6>(), Arg6::type_label()));
        pairs.push((key_of::<Arg7>(), Arg7::type_label()));
        pairs.push((key_of::<Arg8>(), Arg8::type_label()));
        pairs.push((key_of::<Arg9>(), Arg9::type_label()));
        pairs.push((key_of::<Arg10>(), Arg10::type_label()));
        pairs.push((key_of::<Arg11>(), Arg11::type_label()));
        pairs.push((key_of::<Arg12>(), Arg12::type_label()));
        pairs.push((key_of::<Arg13>(), Arg13::type_label()));
        pairs.push((key_of::<Arg14>(), Arg14::type_label()));
        pairs.push((key_of::<Arg15>(), Arg15::type_label()));
        pairs.push((key_of::<Arg16>(), Arg16::type_label()));
        pairs
    }
}

impl<
        Arg1: Clone + Named + 'static,
        Arg2: Clone + Named + 'static,
        Arg3: Clone + Named + 'static,
        Arg4: Clone + Named + 'static,
        Arg5: Clone + Named + 'static,
        Arg6: Clone + Named + 'static,
        Arg7: Clone + Named + 'static,
        Arg8: Clone + Named + 'static,
        Arg9: Clone + Named + 'static,
        Arg10: Clone + Named + 'static,
        Arg11: Clone + Named + 'static,
        Arg12: Clone + Named + 'static,
        Arg13: Clone + Named + 'static,
        Arg14: Clone + Named + 'static,
        Arg15: Clone + Named + 'static,
        Arg16: Clone + Named + 'static,
        Arg17: Clone + Named + 'static,
    > TupleInjectTypes for (Arg1, Arg2, Arg3, Arg4, Arg5, Arg6, Arg7, Arg8, Arg9, Arg10, Arg11, Arg12, Arg13, Arg14, Arg15, Arg16, Arg17) {
    /// The first component, as `get` gives it, and then the others, as
    /// the tuple of the others reads them. The reading fails where `get`
    /// fails for the first, with that failure, and otherwise where the
    /// reading of the others fails, with that failure.
    fn read_from_injector(injector: &Injector) -> (answer: Result<Self, InjectError>)
        ensures
            match answer {
                Ok(parts) => got::<Arg1>(injector, Ok::<Arg1, InjectError>(parts.0)) && read_parts::<
                    (Arg2, Arg3, Arg4, Arg5, Arg6, Arg7, Arg8, Arg9, Arg10, Arg11, Arg12, Arg13, Arg14, Arg15, Arg16, Arg17),
                >(injector, (parts.1, parts.2, parts.3, parts.4, parts.5, parts.6, parts.7, parts.8, parts.9, parts.10, parts.11, parts.12, parts.13, parts.14, parts.15, parts.16)),
                Err(error) => got::<Arg1>(injector, Err::<Arg1, InjectError>(error)) || ((exists|
                    first: Arg1,
                | #[trigger] got::<Arg1>(injector, Ok::<Arg1, InjectError>(first))) && fails_to_read::<
                    (Arg2, Arg3, Arg4, Arg5, Arg6, Arg7, Arg8, Arg9, Arg10, Arg11, Arg12, Arg13, Arg14, Arg15, Arg16, Arg17),
                >(injector, error)),
            },
    {
        match injector.get::<Arg1>() {
            Ok(part1) => {
                assert(got::<Arg1>(injector, Ok::<Arg1, InjectError>(part1)));
                match <(Arg2, Arg3, Arg4, Arg5, Arg6, Arg7, Arg8, Arg9, Arg10, Arg11, Arg12, Arg13, Arg14, Arg15, Arg16, Arg17)>::read_from_injector(injector) {
                    Ok(others) => {
                        assert(read_parts::<(Arg2, Arg3, Arg4, Arg5, Arg6, Arg7, Arg8, Arg9, Arg10, Arg11, Arg12, Arg13, Arg14, Arg15, Arg16, Arg17)>(injector, others));
                        let (part2, part3, part4, part5, part6, part7, part8, part9, part10, part11, part12, part13, part14, part15, part16, part17) = others;
                        Ok((part1, part2, part3, part4, part5, part6, part7, part8, part9, part10, part11, part12, part13, part14, part15, part16, part17))
                    },
                    Err(error) => {
                        assert(fails_to_read::<(Arg2, Arg3, Arg4, Arg5, Arg6, Arg7, Arg8, Arg9, Arg10, Arg11, Arg12, Arg13, Arg14, Arg15, Arg16, Arg17)>(injector, error));
                        Err(error)
                    },
                }
            },
            Err(error) => Err(error),
        }
    }

    fn dependencies_names() -> (pairs: Vec<(TypeId, String)>)
        ensures
            pairs@.len() == 17,
            is_key_of::<Arg1>(pairs@[0].0),
            call_ensures(Arg1::type_label, (), pairs@[0].1),
            is_key_of::<Arg2>(pairs@[1].0),
            call_ensures(Arg2::type_label, (), pairs@[1].1),
            is_key_of::<Arg3>(pairs@[2].0),
            call_ensures(Arg3::type_label, (), pairs@[2].1),
            is_key_of::<Arg4>(pairs@[3].0),
            call_ensures(Arg4::type_label, (), pairs@[3].1),
            is_key_of::<Arg5>(pairs@[4].0),
            call_ensures(Arg5::type_label, (), pairs@[4].1),
            is_key_of::<Arg6>(pairs@[5].0),
            call_ensures(Arg6::type_label, (), pairs@[5].1),
            is_key_of::<Arg7>(pairs@[6].0),
            call_ensures(Arg7::type_label, (), pairs@[6].1),
            is_key_of::<Arg8>(pairs@[7].0),
            call_ensures(Arg8::type_label, (), pairs@[7].1),
            is_key_of::<Arg9>(pairs@[8].0),
            call_ensures(Arg9::type_label, (), pairs@[8].1),
            is_key_of::<Arg10>(pairs@[9].0),
            call_ensures(Arg10::type_label, (), pairs@[9].1),
            is_key_of::<Arg11>(pairs@[10].0),
            call_ensures(Arg11::type_label, (), pairs@[10].1),
            is_key_of::<Arg12>(pairs@[11].0),
            call_ensures(Arg12::type_label, (), pairs@[11].1),
            is_key_of::<Arg13>(pairs@[12].0),
            call_ensures(Arg13::type_label, (), pairs@[12].1),
            is_key_of::<Arg14>(pairs@[13].0),
            call_ensures(Arg14::type_label, (), pairs@[13].1),
            is_key_of::<Arg15>(pairs@[14].0),
            call_ensures(Arg15::type_label, (), pairs@[14].1),
            is_key_of::<Arg16>(pairs@[15].0),
            call_ensures(Arg16::type_label, (), pairs@[15].1),
            is_key_of::<Arg17>(pairs@[16].0),
            call_ensures(Arg17::type_label, (), pairs@[16].1),
    {
        let mut pairs: Vec<(TypeId, String)> = Vec::new();
        pairs.push((key_of::<Arg1>(), Arg1::type_label()));
        pairs.push((key_of::<Arg2>(), Arg2::type_label()));
        pairs.push((key_of::<Arg3>(), Arg3::type_label()));
        pairs.push((key_of::<Arg4>(), Arg4::type_label()));
        pairs.push((key_of::<Arg5>(), Arg5::type_label()));
        pairs.push((key_of::<Arg6>(), Arg6::type_label()));
        pairs.push((key_of::<Arg7>(), Arg7::type_label()));
        pairs.push((key_of::<Arg8>(), Arg8::type_label()));
        pairs.push((key_of::<Arg9>(), Arg9::type_label()));
        pairs.push((key_of::<Arg10>(), Arg10::type_label()));
        pairs.push((key_of::<Arg11>(), Arg11::type_label()));
        pairs.push((key_of::<Arg12>(), Arg12::type_label()));
        pairs.push((key_of::<Arg13>(), Arg13::type_label()));
        pairs.push((key_of::<Arg14>(), Arg14::type_label()));
        pairs.push((key_of::<Arg15>(), Arg15::type_label()));
        pairs.push((key_of::<Arg16>(), Arg16::type_label()));
        pairs.push((key_of::<Arg17>(), Arg17::type_label()));
        pairs
    }
}

impl<
        Arg1: Clone + Named + 'static,
        Arg2: Clone + Named + 'static,
        Arg3: Clone + Named + 'static,
        Arg4: Clone + Named + 'static,
        Arg5: Clone + Named + 'static,
        Arg6: Clone + Named + 'static,
        Arg7: Clone + Named + 'static,
        Arg8: Clone + Named + 'static,
        Arg9: Clone + Named + 'static,
        Arg10: Clone + Named + 'static,
        Arg11: Clone + Named + 'static,
        Arg12: Clone + Named + 'static,
        Arg13: Clone + Named + 'static,
        Arg14: Clone + Named + 'static,
        Arg15: Clone + Named + 'static,
        Arg16: Clone + Named + 'static,
        Arg17: Clone + Named + 'static,
        Arg18: Clone + Named + 'static,
    > TupleInjectTypes for (Arg1, Arg2, Arg3, Arg4, Arg5, Arg6, Arg7, Arg8, Arg9, Arg10, Arg11, Arg12, Arg13, Arg14, Arg15, Arg16, Arg17, Arg18) {
    /// The first component, as `get` gives it, and then the others, as
    /// the tuple of the others reads them. The reading fails where `get`
    /// fails for the first, with that failure, and otherwise where the
    /// reading of the others fails, with that failure.
    fn read_from_injector(injector: &Injector) -> (answer: Result<Self, InjectError>)
        ensures
            match answer {
                Ok(parts) => got::<Arg1>(injector, Ok::<Arg1, InjectError>(parts.0)) && read_parts::<
                    (Arg2, Arg3, Arg4, Arg5, Arg6, Arg7, Arg8, Arg9, Arg10, Arg11, Arg12, Arg13, Arg14, Arg15, Arg16, Arg17, Arg18),
                >(injector, (parts.1, parts.2, parts.3, parts.4, parts.5, parts.6, parts.7, parts.8, parts.9, parts.10, parts.11, parts.12, parts.13, parts.14, parts.15, parts.16, parts.17)),
                Err(error) => got::<Arg1>(injector, Err::<Arg1, InjectError>(error)) || ((exists|
                    first: Arg1,
                | #[trigger] got::<Arg1>(injector, Ok::<Arg1, InjectError>(first))) && fails_to_read::<
                    (Arg2, Arg3, Arg4, Arg5, Arg6, Arg7, Arg8, Arg9, Arg10, Arg11, Arg12, Arg13, Arg14, Arg15, Arg16, Arg17, Arg18),
                >(injector, error)),
            },
    {
        match injector.get::<Arg1>() {
            Ok(part1) => {
                assert(got::<Arg1>(injector, Ok::<Arg1, InjectError>(part1)));
                match <(Arg2, Arg3, Arg4, Arg5, Arg6, Arg7, Arg8, Arg9, Arg10, Arg11, Arg12, Arg13, Arg14, Arg15, Arg16, Arg17, Arg18)>::read_from_injector(injector) {
                    Ok(others) => {
                        assert(read_parts::<(Arg2, Arg3, Arg4, Arg5, Arg6, Arg7, Arg8, Arg9, Arg10, Arg11, Arg12, Arg13, Arg14, Arg15, Arg16, Arg17, Arg18)>(injector, others));
                        let (part2, part3, part4, part5, part6, part7, part8, part9, part10, part11, part12, part13, part14, part15, part16, part17, part18) = others;
                        Ok((part1, part2, part3, part4, part5, part6, part7, part8, part9, part10, part11, part12, part13, part14, part15, part16, part17, part18))
                    },
                    Err(error) => {
                        assert(fails_to_read::<(Arg2, Arg3, Arg4, Arg5, Arg6, Arg7, Arg8, Arg9, Arg10, Arg11, Arg12, Arg13, Arg14, Arg15, Arg16, Arg17, Arg18)>(injector, error));
                        Err(error)
                    },
                }
            },
            Err(error) => Err(error),
        }
    }

    fn dependencies_names() -> (pairs: Vec<(TypeId, String)>)
        ensures
            pairs@.len() == 18,
            is_key_of::<Arg1>(pairs@[0].0),
            call_ensures(Arg1::type_label, (), pairs@[0].1),
            is_key_of::<Arg2>(pairs@[1].0),
            call_ensures(Arg2::type_label, (), pairs@[1].1),
            is_key_of::<Arg3>(pairs@[2].0),
            call_ensures(Arg3::type_label, (), pairs@[2].1),
            is_key_of::<Arg4>(pairs@[3].0),
            call_ensures(Arg4::type_label, (), pairs@[3].1),
            is_key_of::<Arg5>(pairs@[4].0),
            call_ensures(Arg5::type_label, (), pairs@[4].1),
            is_key_of::<Arg6>(pairs@[5].0),
            call_ensures(Arg6::type_label, (), pairs@[5].1),
            is_key_of::<Arg7>(pairs@[6].0),
            call_ensures(Arg7::type_label, (), pairs@[6].1),
            is_key_of::<Arg8>(pairs@[7].0),
            call_ensures(Arg8::type_label, (), pairs@[7].1),
            is_key_of::<Arg9>(pairs@[8].0),
            call_ensures(Arg9::type_label, (), pairs@[8].1),
            is_key_of::<Arg10>(pairs@[9].0),
            call_ensures(Arg10::type_label, (), pairs@[9].1),
            is_key_of::<Arg11>(pairs@[10].0),
            call_ensures(Arg11::type_label, (), pairs@[10].1),
            is_key_of::<Arg12>(pairs@[11].0),
            call_ensures(Arg12::type_label, (), pairs@[11].1),
            is_key_of::<Arg13>(pairs@[12].0),
            call_ensures(Arg13::type_label, (), pairs@[12].1),
            is_key_of::<Arg14>(pairs@[13].0),
            call_ensures(Arg14::type_label, (), pairs@[13].1),
            is_key_of::<Arg15>(pairs@[14].0),
            call_ensures(Arg15::type_label, (), pairs@[14].1),
            is_key_of::<Arg16>(pairs@[15].0),
            call_ensures(Arg16::type_label, (), pairs@[15].1),
            is_key_of::<Arg17>(pairs@[16].0),
            call_ensures(Arg17::type_label, (), pairs@[16].1),
            is_key_of::<Arg18>(pairs@[17].0),
            call_ensures(Arg18::type_label, (), pairs@[17].1),
    {
        let mut pairs: Vec<(TypeId, String)> = Vec::new();
        pairs.push((key_of::<Arg1>(), Arg1::type_label()));
        pairs.push((key_of::<Arg2>(), Arg2::type_label()));
        pairs.push((key_of::<Arg3>(), Arg3::type_label()));
        pairs.push((key_of::<Arg4>(), Arg4::type_label()));
        pairs.push((key_of::<Arg5>(), Arg5::type_label()));
        pairs.push((key_of::<Arg6>(), Arg6::type_label()));
        pairs.push((key_of::<Arg7>(), Arg7::type_label()));
        pairs.push((key_of::<Arg8>(), Arg8::type_label()));
        pairs.push((key_of::<Arg9>(), Arg9::type_label()));
        pairs.push((key_of::<Arg10>(), Arg10::type_label()));
        pairs.push((key_of::<Arg11>(), Arg11::type_label()));
        pairs.push((key_of::<Arg12>(), Arg12::type_label()));
        pairs.push((key_of::<Arg13>(), Arg13::type_label()));
        pairs.push((key_of::<Arg14>(), Arg14::type_label()));
        pairs.push((key_of::<Arg15>(), Arg15::type_label()));
        pairs.push((key_of::<Arg16>(), Arg16::type_label()));
        pairs.push((key_of::<Arg17>(), Arg17::type_label()));
        pairs.push((key_of::<Arg18>(), Arg18::type_label()));
        pairs
    }
}

} // verus!
