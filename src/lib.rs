//! Parsing and code generation for declarative property lists of an
//! object system: typed descriptors, getter and setter dispatch.
pub mod generate;
pub mod parse;
pub mod text;
pub mod token;

use vstd::prelude::*;
use crate::generate::{generated, has_block, lemma_scan_blocks, property, scan_blocks, Arm, Descriptor, DescriptorModel, GenError};
use crate::parse::{properties_spec, property_views, ParseError, Properties, Property};
use crate::token::Token;

verus! {

/// Why a property list cannot be expanded.
#[derive(Clone, Debug, PartialEq, Eq)]
pub enum Error {
    Parse(ParseError),
    Generate(GenError),
}

/// What a property list expands to: one descriptor per property in
/// declared order, and the getter and setter dispatch arms.
#[derive(Clone, Debug, PartialEq, Eq)]
pub struct Expansion {
    pub param_specs: Vec<Descriptor>,
    pub getters: Vec<Arm>,
    pub setters: Vec<Arm>,
}

/// The views of a sequence of descriptors.
pub open spec fn descriptor_views(v: Seq<Descriptor>) -> Seq<DescriptorModel> {
    v.map_values(|d: Descriptor| d@)
}

/// `s` with `o` appended if there is one.
pub open spec fn push_some(s: Seq<Arm>, o: Option<Arm>) -> Seq<Arm> {
    match o {
        Some(a) => s.push(a),
        None => s,
    }
}

/// What a list of properties expands to: property `k` (from 0) is
/// generated under identifier `k + 1`; the first fault ends it.
pub open spec fn expansion_of(props: Seq<Property>) -> Result<(Seq<DescriptorModel>, Seq<Arm>, Seq<Arm>), GenError>
    decreases props.len(),
{
    if props.len() == 0 {
        Ok((Seq::empty(), Seq::empty(), Seq::empty()))
    } else {
        match expansion_of(props.drop_last()) {
            Err(e) => Err(e),
            Ok((ds, gs, ss)) => match generated(props.len() as usize, props.last()) {
                Err(e) => Err(e),
                Ok((d, g, s)) => Ok((ds.push(d), push_some(gs, g), push_some(ss, s))),
            },
        }
    }
}

/// The expansion as plain values.
pub open spec fn expansion_view(x: Expansion) -> (Seq<DescriptorModel>, Seq<Arm>, Seq<Arm>) {
    (descriptor_views(x.param_specs@), x.getters@, x.setters@)
}

/// A fault among the first properties stays the outcome for all of them.
proof fn lemma_expansion_error_persists(props: Seq<Property>, k: int)
    requires
        0 <= k <= props.len(),
        expansion_of(props.take(k)) is Err,
    ensures
        expansion_of(props) == expansion_of(props.take(k)),
    decreases props.len() - k,
{
    if k < props.len() {
        assert(props.take(k + 1).drop_last() =~= props.take(k));
        lemma_expansion_error_persists(props, k + 1);
    } else {
        assert(props.take(k) =~= props);
    }
}

/// Generates each property in order under identifiers 1, 2, ...
pub fn generate_all(props: Vec<Property>) -> (r: Result<Expansion, GenError>)
    ensures
        match r {
            Ok(x) => expansion_of(props@) == Ok::<(Seq<DescriptorModel>, Seq<Arm>, Seq<Arm>), GenError>(expansion_view(x)),
            Err(e) => expansion_of(props@) == Err::<(Seq<DescriptorModel>, Seq<Arm>, Seq<Arm>), GenError>(e),
        },
{
    let ghost all = props@;
    let mut rest = props;
    let mut param_specs: Vec<Descriptor> = Vec::new();
    let mut getters: Vec<Arm> = Vec::new();
    let mut setters: Vec<Arm> = Vec::new();
    let mut index: usize = 0;
    assert(all.len() == rest.len());
    assert(descriptor_views(param_specs@) =~= Seq::<DescriptorModel>::empty());
    while rest.len() > 0
        invariant
            index + rest@.len() == all.len(),
            all.len() <= usize::MAX,
            all == props@,
            rest@ == all.skip(index as int),
            expansion_of(all.take(index as int)) == Ok::<(Seq<DescriptorModel>, Seq<Arm>, Seq<Arm>), GenError>(
                (descriptor_views(param_specs@), getters@, setters@),
            ),
        decreases rest.len(),
    {
        proof {
            assert(all.take(index as int + 1).drop_last() =~= all.take(index as int));
        }
        let ghost before = rest@;
        let prop = rest.remove(0);
        proof {
            assert(before[0] == all[index as int]);
            assert(prop == all.take(index as int + 1).last());
            assert(rest@ =~= all.skip(index as int + 1));
        }
        let id = index + 1;
        let ghost ds0 = param_specs@;
        match property(id, prop) {
            Err(e) => {
                proof {
                    lemma_expansion_error_persists(all, index as int + 1);
                }
                return Err(e);
            },
            Ok((param_spec, getter, setter)) => {
                param_specs.push(param_spec);
                proof {
                    assert(descriptor_views(param_specs@) =~= descriptor_views(ds0).push(param_spec@));
                }
                match getter {
                    Some(g) => getters.push(g),
                    None => {},
                }
                match setter {
                    Some(s) => setters.push(s),
                    None => {},
                }
            },
        }
        index = id;
    }
    assert(all.take(index as int) =~= all);
    Ok(Expansion { param_specs, getters, setters })
}

/// Parses a property list and expands it. A parse failure comes first;
/// otherwise the result is the expansion of the parsed properties.
pub fn properties(tokens: &Vec<Token>) -> (r: Result<Expansion, Error>)
    ensures
        match properties_spec(tokens@) {
            Err(e) => r == Err::<Expansion, Error>(Error::Parse(e)),
            Ok(views) => exists|props: Seq<Property>|
                #![trigger property_views(props)]
                property_views(props) == views && match r {
                    Ok(x) => expansion_of(props) == Ok::<(Seq<DescriptorModel>, Seq<Arm>, Seq<Arm>), GenError>(
                        expansion_view(x),
                    ),
                    Err(Error::Generate(e)) => expansion_of(props) == Err::<
                        (Seq<DescriptorModel>, Seq<Arm>, Seq<Arm>),
                        GenError,
                    >(e),
                    Err(Error::Parse(_)) => false,
                },
        },
{
    let parsed = match Properties::parse(tokens) {
        Err(e) => return Err(Error::Parse(e)),
        Ok(p) => p,
    };
    let props = parsed.0.0;
    match generate_all(props) {
        Ok(x) => Ok(x),
        Err(e) => Err(Error::Generate(e)),
    }
}

/// The arms of a dispatch procedure agree with the numbering of `props`:
/// an arm for number `k + 1` exactly when property `k` has a block named
/// `n`, numbers between 1 and the number of properties, in increasing
/// order.
pub open spec fn dispatch_matches(arms: Seq<Arm>, props: Seq<Property>, n: Seq<char>) -> bool {
    &&& forall|k: int|
        0 <= k < props.len() ==> ((exists|j: int| 0 <= j < arms.len() && #[trigger] arms[j].id == k + 1)
            <==> has_block(#[trigger] props[k].blocks.0@, n))
    &&& forall|i: int, j: int| 0 <= i < j < arms.len() ==> arms[i].id < arms[j].id
    &&& forall|j: int| 0 <= j < arms.len() ==> 1 <= #[trigger] arms[j].id <= props.len()
}

proof fn lemma_dispatch_step(arms0: Seq<Arm>, o: Option<Arm>, props: Seq<Property>, n: Seq<char>)
    requires
        props.len() > 0,
        dispatch_matches(arms0, props.drop_last(), n),
        o matches Some(a) ==> a.id == props.len(),
        o is Some <==> has_block(props.last().blocks.0@, n),
    ensures
        dispatch_matches(push_some(arms0, o), props, n),
{
    let arms = push_some(arms0, o);
    let init = props.drop_last();
    assert forall|k: int| 0 <= k < props.len() implies ((exists|j: int|
        0 <= j < arms.len() && #[trigger] arms[j].id == k + 1) <==> has_block(#[trigger] props[k].blocks.0@, n)) by {
        if k < init.len() {
            assert(props[k] == init[k]);
            if exists|j: int| 0 <= j < arms.len() && #[trigger] arms[j].id == k + 1 {
                let j = choose|j: int| 0 <= j < arms.len() && #[trigger] arms[j].id == k + 1;
                assert(j < arms0.len());
                assert(arms0[j].id == k + 1);
            }
            if has_block(init[k].blocks.0@, n) {
                let j = choose|j: int| 0 <= j < arms0.len() && #[trigger] arms0[j].id == k + 1;
                assert(arms[j].id == k + 1);
            }
        } else {
            if exists|j: int| 0 <= j < arms.len() && #[trigger] arms[j].id == k + 1 {
                let j = choose|j: int| 0 <= j < arms.len() && #[trigger] arms[j].id == k + 1;
                if j < arms0.len() {
                    assert(arms0[j].id <= init.len());
                }
            }
            if o is Some {
                assert(arms[arms0.len() as int].id == k + 1);
            }
        }
    }
    assert forall|i: int, j: int| 0 <= i < j < arms.len() implies arms[i].id < arms[j].id by {
        if j >= arms0.len() {
            assert(arms0[i].id <= init.len());
        } else {
            assert(arms[i] == arms0[i] && arms[j] == arms0[j]);
        }
    }
    assert forall|j: int| 0 <= j < arms.len() implies 1 <= #[trigger] arms[j].id <= props.len() by {
        if j < arms0.len() {
            assert(arms[j] == arms0[j]);
        }
    }
}

/// Properties are numbered 1, 2, ... in declared order: there is one
/// descriptor per property, a getter arm under number `k` exactly when
/// property `k` has a `get` block, a setter arm exactly when it has a `set`
/// block, and the arms of each procedure come in increasing order.
pub proof fn law_dispatch_keys(props: Seq<Property>)
    requires
        props.len() <= usize::MAX,
        expansion_of(props) is Ok,
    ensures
        expansion_of(props) matches Ok((ds, gs, ss)) && ds.len() == props.len() && dispatch_matches(gs, props, "get"@)
            && dispatch_matches(ss, props, "set"@),
    decreases props.len(),
{
    if props.len() > 0 {
        let init = props.drop_last();
        law_dispatch_keys(init);
        let id = props.len() as usize;
        let last = props.last();
        lemma_scan_blocks(id, last.blocks.0@);
        let (ds0, gs0, ss0) = expansion_of(init)->Ok_0;
        let (d, g, s) = generated(id, last)->Ok_0;
        assert(scan_blocks(id, last.blocks.0@) == Ok::<(Option<Arm>, Option<Arm>), GenError>((g, s)));
        lemma_dispatch_step(gs0, g, props, "get"@);
        lemma_dispatch_step(ss0, s, props, "set"@);
    }
}

} // verus!
