//! From one parsed property to its descriptor and its dispatch arms.
use vstd::prelude::*;
use crate::parse::{join_path, opt_view, path_text, Block, DeclarationArg, Fragment, Head, Path, Property};
use crate::text::{is_str, join_strings, join_with, trim, trim_ws, views};

verus! {

/// A property flag of the host object system.
#[derive(Clone, Copy, Debug, PartialEq, Eq, Structural)]
pub enum Flag {
    Readable,
    Writable,
    Readwrite,
    Construct,
    ConstructOnly,
    LaxValidation,
    StaticName,
    Private,
    StaticNick,
    StaticBlurb,
    ExplicitNotify,
    Deprecated,
}

/// The flag a name stands for, if any.
pub open spec fn flag_named(s: Seq<char>) -> Option<Flag> {
    if s == "readable"@ {
        Some(Flag::Readable)
    } else if s == "writable"@ {
        Some(Flag::Writable)
    } else if s == "readwrite"@ {
        Some(Flag::Readwrite)
    } else if s == "construct"@ {
        Some(Flag::Construct)
    } else if s == "construct_only"@ {
        Some(Flag::ConstructOnly)
    } else if s == "lax_validation"@ {
        Some(Flag::LaxValidation)
    } else if s == "static_name"@ {
        Some(Flag::StaticName)
    } else if s == "private"@ {
        Some(Flag::Private)
    } else if s == "static_nick"@ {
        Some(Flag::StaticNick)
    } else if s == "static_blurb"@ {
        Some(Flag::StaticBlurb)
    } else if s == "explicit_notify"@ {
        Some(Flag::ExplicitNotify)
    } else if s == "deprecated"@ {
        Some(Flag::Deprecated)
    } else {
        None
    }
}

/// The name of the host's constant for a flag.
pub open spec fn flag_constant(f: Flag) -> Seq<char> {
    match f {
        Flag::Readable => "READABLE"@,
        Flag::Writable => "WRITABLE"@,
        Flag::Readwrite => "READWRITE"@,
        Flag::Construct => "CONSTRUCT"@,
        Flag::ConstructOnly => "CONSTRUCT_ONLY"@,
        Flag::LaxValidation => "LAX_VALIDATION"@,
        Flag::StaticName => "STATIC_NAME"@,
        Flag::Private => "PRIVATE"@,
        Flag::StaticNick => "STATIC_NICK"@,
        Flag::StaticBlurb => "STATIC_BLURB"@,
        Flag::ExplicitNotify => "EXPLICIT_NOTIFY"@,
        Flag::Deprecated => "DEPRECATED"@,
    }
}

impl Flag {
    /// The flag that `name` stands for, or `None` for an unknown name.
    pub fn from_name(name: &String) -> (r: Option<Flag>)
        ensures
            r == flag_named(name@),
    {
        if is_str(name, "readable") {
            Some(Flag::Readable)
        } else if is_str(name, "writable") {
            Some(Flag::Writable)
        } else if is_str(name, "readwrite") {
            Some(Flag::Readwrite)
        } else if is_str(name, "construct") {
            Some(Flag::Construct)
        } else if is_str(name, "construct_only") {
            Some(Flag::ConstructOnly)
        } else if is_str(name, "lax_validation") {
            Some(Flag::LaxValidation)
        } else if is_str(name, "static_name") {
            Some(Flag::StaticName)
        } else if is_str(name, "private") {
            Some(Flag::Private)
        } else if is_str(name, "static_nick") {
            Some(Flag::StaticNick)
        } else if is_str(name, "static_blurb") {
            Some(Flag::StaticBlurb)
        } else if is_str(name, "explicit_notify") {
            Some(Flag::ExplicitNotify)
        } else if is_str(name, "deprecated") {
            Some(Flag::Deprecated)
        } else {
            None
        }
    }

    /// The name of the host's constant for this flag (`READABLE`, ...).
    pub fn constant_name(&self) -> (r: &'static str)
        ensures
            r@ == flag_constant(*self),
    {
        match self {
            Flag::Readable => "READABLE",
            Flag::Writable => "WRITABLE",
            Flag::Readwrite => "READWRITE",
            Flag::Construct => "CONSTRUCT",
            Flag::ConstructOnly => "CONSTRUCT_ONLY",
            Flag::LaxValidation => "LAX_VALIDATION",
            Flag::StaticName => "STATIC_NAME",
            Flag::Private => "PRIVATE",
            Flag::StaticNick => "STATIC_NICK",
            Flag::StaticBlurb => "STATIC_BLURB",
            Flag::ExplicitNotify => "EXPLICIT_NOTIFY",
            Flag::Deprecated => "DEPRECATED",
        }
    }
}

/// The type tags that have a builder of their own.
#[derive(Clone, Copy, Debug, PartialEq, Eq, Structural)]
pub enum ValueType {
    Boolean,
    Char,
    Double,
    Float,
    Int,
    Int64,
    Long,
    Str,
}

/// The value type a declaration tag names, if any (`object` is not one).
pub open spec fn value_type_named(s: Seq<char>) -> Option<ValueType> {
    if s == "boolean"@ {
        Some(ValueType::Boolean)
    } else if s == "char"@ {
        Some(ValueType::Char)
    } else if s == "double"@ {
        Some(ValueType::Double)
    } else if s == "float"@ {
        Some(ValueType::Float)
    } else if s == "int"@ {
        Some(ValueType::Int)
    } else if s == "int64"@ {
        Some(ValueType::Int64)
    } else if s == "long"@ {
        Some(ValueType::Long)
    } else if s == "string"@ {
        Some(ValueType::Str)
    } else {
        None
    }
}

/// The descriptor type built for a value type: `ParamSpec` and the
/// capitalised tag.
pub open spec fn builder_type(t: ValueType) -> Seq<char> {
    match t {
        ValueType::Boolean => "ParamSpecBoolean"@,
        ValueType::Char => "ParamSpecChar"@,
        ValueType::Double => "ParamSpecDouble"@,
        ValueType::Float => "ParamSpecFloat"@,
        ValueType::Int => "ParamSpecInt"@,
        ValueType::Int64 => "ParamSpecInt64"@,
        ValueType::Long => "ParamSpecLong"@,
        ValueType::Str => "ParamSpecString"@,
    }
}

impl ValueType {
    /// The value type that a declaration tag names, if any.
    pub fn from_tag(tag: &String) -> (r: Option<ValueType>)
        ensures
            r == value_type_named(tag@),
    {
        if is_str(tag, "boolean") {
            Some(ValueType::Boolean)
        } else if is_str(tag, "char") {
            Some(ValueType::Char)
        } else if is_str(tag, "double") {
            Some(ValueType::Double)
        } else if is_str(tag, "float") {
            Some(ValueType::Float)
        } else if is_str(tag, "int") {
            Some(ValueType::Int)
        } else if is_str(tag, "int64") {
            Some(ValueType::Int64)
        } else if is_str(tag, "long") {
            Some(ValueType::Long)
        } else if is_str(tag, "string") {
            Some(ValueType::Str)
        } else {
            None
        }
    }

    /// The descriptor type built for this value type.
    pub fn builder_type(&self) -> (r: &'static str)
        ensures
            r@ == builder_type(*self),
    {
        match self {
            ValueType::Boolean => "ParamSpecBoolean",
            ValueType::Char => "ParamSpecChar",
            ValueType::Double => "ParamSpecDouble",
            ValueType::Float => "ParamSpecFloat",
            ValueType::Int => "ParamSpecInt",
            ValueType::Int64 => "ParamSpecInt64",
            ValueType::Long => "ParamSpecLong",
            ValueType::Str => "ParamSpecString",
        }
    }
}

/// The start of a descriptor expression: the builder of a value type
/// called with the property's name, or the object builder called with the
/// name and the runtime type of the element type at the path.
#[derive(Clone, Debug, PartialEq, Eq)]
pub enum Builder {
    Value(ValueType, String),
    Object(String, Path),
}

/// A `.key(value)` configuration call on the builder.
#[derive(Clone, Debug, PartialEq, Eq)]
pub struct BuilderStep {
    pub key: Path,
    pub value: String,
}

/// A descriptor expression: builder, then `.flags(..)` if there are
/// flags, `.blurb(..)` if there is one, the configuration calls in order,
/// and `.build()`.
#[derive(Clone, Debug, PartialEq, Eq)]
pub struct Descriptor {
    pub builder: Builder,
    pub flags: Vec<Flag>,
    pub blurb: Option<String>,
    pub steps: Vec<BuilderStep>,
}

/// What a descriptor is, as plain values.
pub struct DescriptorModel {
    pub builder: Builder,
    pub flags: Seq<Flag>,
    pub blurb: Option<Seq<char>>,
    pub steps: Seq<BuilderStep>,
}

impl View for Descriptor {
    type V = DescriptorModel;

    open spec fn view(&self) -> DescriptorModel {
        DescriptorModel {
            builder: self.builder,
            flags: self.flags@,
            blurb: opt_view(self.blurb),
            steps: self.steps@,
        }
    }
}

/// A dispatch arm: the property's identifier and the accessor's body.
#[derive(Clone, Copy, Debug, PartialEq, Eq, Structural)]
pub struct Arm {
    pub id: usize,
    pub body: Fragment,
}

/// The accessor block whose absence makes an explicit flag a conflict.
#[derive(Clone, Copy, Debug, PartialEq, Eq, Structural)]
pub enum Accessor {
    Getter,
    Setter,
}

/// Why a property cannot be generated.
#[derive(Clone, Debug, PartialEq, Eq)]
pub enum GenError {
    /// A block named other than `get` or `set`.
    UnsupportedBlock(String),
    DuplicateGet,
    DuplicateSet,
    /// Neither a `get` nor a `set` block.
    MissingBlock,
    /// An `object` declaration without arguments.
    MissingObjectType,
    /// An `object` declaration whose first argument is `key = value`.
    ObjectTypeNotPath,
    /// A tag that names no known type.
    UnimplementedType(String),
    UnsupportedFlag(Path),
    /// An explicit flag that needs the accessor block the property lacks.
    Conflict { property: String, flag: Path, missing: Accessor },
}

/// Where a flag came from: written by the author, or implied by the blocks.
#[derive(Clone, Debug, PartialEq, Eq)]
pub enum FlagSource {
    Explicit(Path),
    Implied,
}

/// The arguments of a property's declaration (none without a list).
pub open spec fn decl_args(h: Head) -> Seq<DeclarationArg> {
    match h.declaration.args {
        Some(a) => a.args@,
        None => Seq::empty(),
    }
}

/// The builder that a declaration selects, with the arguments left after
/// it (an object declaration consumes its first).
pub open spec fn builder_of(h: Head, name: String) -> Result<(Builder, Seq<DeclarationArg>), GenError> {
    let tag = h.declaration.tag;
    let args = decl_args(h);
    match value_type_named(tag@) {
        Some(t) => Ok((Builder::Value(t, name), args)),
        None => if tag@ == "object"@ {
            if args.len() == 0 {
                Err(GenError::MissingObjectType)
            } else {
                match args[0] {
                    DeclarationArg::Tag(p) => Ok((Builder::Object(name, p), args.drop_first())),
                    DeclarationArg::KeyVal(_, _) => Err(GenError::ObjectTypeNotPath),
                }
            }
        } else {
            Err(GenError::UnimplementedType(tag))
        },
    }
}

/// The explicit flags among `args`, in order, or the first unknown one.
pub open spec fn explicit_flags(args: Seq<DeclarationArg>) -> Result<Seq<(FlagSource, Flag)>, GenError>
    decreases args.len(),
{
    if args.len() == 0 {
        Ok(Seq::empty())
    } else {
        match explicit_flags(args.drop_last()) {
            Err(e) => Err(e),
            Ok(fs) => match args.last() {
                DeclarationArg::Tag(p) => match flag_named(path_text(p)) {
                    Some(f) => Ok(fs.push((FlagSource::Explicit(p), f))),
                    None => Err(GenError::UnsupportedFlag(p)),
                },
                DeclarationArg::KeyVal(_, _) => Ok(fs),
            },
        }
    }
}

/// The configuration calls among `args`, in order.
pub open spec fn builder_steps(args: Seq<DeclarationArg>) -> Seq<BuilderStep>
    decreases args.len(),
{
    if args.len() == 0 {
        Seq::empty()
    } else {
        let rest = builder_steps(args.drop_last());
        match args.last() {
            DeclarationArg::Tag(_) => rest,
            DeclarationArg::KeyVal(k, v) => rest.push(BuilderStep { key: k, value: v }),
        }
    }
}

/// The blurb of a property: its documentation lines joined by newlines
/// and trimmed, if it has any.
pub open spec fn blurb_of(doc: Seq<Seq<char>>) -> Option<Seq<char>> {
    if doc.len() == 0 {
        None
    } else {
        Some(trim_ws(join_with(doc, "\n"@)))
    }
}

/// The working state of one descriptor while its flags are settled.
struct ParamSpec {
    name: String,
    builder: Builder,
    builder_steps: Vec<BuilderStep>,
    flags: Vec<(FlagSource, Flag)>,
    docs: Option<String>,
}

impl ParamSpec {
    /// Selects the builder and reads the declaration's flags and
    /// configuration calls, and the documentation.
    fn new(head: Head, name: &String) -> (r: Result<ParamSpec, GenError>)
        ensures
            match builder_of(head, *name) {
                Err(e) => r == Err::<ParamSpec, GenError>(e),
                Ok((b, rest)) => match explicit_flags(rest) {
                    Err(e) => r == Err::<ParamSpec, GenError>(e),
                    Ok(fs) => r matches Ok(ps) && ps.name == *name && ps.builder == b
                        && ps.flags@ == fs && ps.builder_steps@ == builder_steps(rest)
                        && opt_view(ps.docs) == blurb_of(views(head.doc@)),
                },
            },
    {
        let ghost old_head = head;
        let Head { doc, declaration } = head;
        let mut args: Vec<DeclarationArg> = match declaration.args {
            Some(a) => a.args,
            None => Vec::new(),
        };
        let builder = match ValueType::from_tag(&declaration.tag) {
            Some(t) => Builder::Value(t, name.clone()),
            None => {
                if is_str(&declaration.tag, "object") {
                    if args.len() == 0 {
                        return Err(GenError::MissingObjectType);
                    }
                    match args.remove(0) {
                        DeclarationArg::Tag(p) => Builder::Object(name.clone(), p),
                        DeclarationArg::KeyVal(_, _) => return Err(GenError::ObjectTypeNotPath),
                    }
                } else {
                    return Err(GenError::UnimplementedType(declaration.tag));
                }
            },
        };
        assert(builder_of(old_head, *name) == Ok::<(Builder, Seq<DeclarationArg>), GenError>((builder, args@)));
        let ghost rest = args@;
        assert(rest.len() == args.len());
        let mut flags: Vec<(FlagSource, Flag)> = Vec::new();
        let mut steps: Vec<BuilderStep> = Vec::new();
        let mut i: usize = 0;
        while args.len() > 0
            invariant
                i + args@.len() == rest.len(),
                rest.len() <= usize::MAX,
                old_head == head,
                builder_of(old_head, *name) == Ok::<(Builder, Seq<DeclarationArg>), GenError>((builder, rest)),
                args@ == rest.skip(i as int),
                explicit_flags(rest.take(i as int)) == Ok::<Seq<(FlagSource, Flag)>, GenError>(flags@),
                steps@ == builder_steps(rest.take(i as int)),
            decreases args.len(),
        {
            proof {
                assert(rest.take(i as int + 1).drop_last() =~= rest.take(i as int));
                assert(rest.take(i as int + 1).last() == rest[i as int]);
            }
            let ghost before = args@;
            let arg = args.remove(0);
            proof {
                assert(before[0] == rest[i as int]);
                assert(arg == rest.take(i as int + 1).last());
                assert(args@ =~= rest.skip(i as int + 1));
            }
            match arg {
                DeclarationArg::Tag(p) => {
                    let text = join_path(&p);
                    match Flag::from_name(&text) {
                        Some(f) => flags.push((FlagSource::Explicit(p), f)),
                        None => {
                            proof {
                                assert(explicit_flags(rest.take(i as int + 1))
                                    == Err::<Seq<(FlagSource, Flag)>, GenError>(GenError::UnsupportedFlag(p)));
                                lemma_flags_error_persists(rest, i as int + 1);
                                assert(explicit_flags(rest)
                                    == Err::<Seq<(FlagSource, Flag)>, GenError>(GenError::UnsupportedFlag(p)));
                            }
                            return Err(GenError::UnsupportedFlag(p));
                        },
                    }
                },
                DeclarationArg::KeyVal(k, v) => steps.push(BuilderStep { key: k, value: v }),
            }
            i = i + 1;
        }
        assert(rest.take(i as int) =~= rest);
        let docs = if doc.len() == 0 {
            None
        } else {
            let joined = join_strings(&doc, "\n");
            Some(trim(joined.as_str()))
        };
        Ok(ParamSpec { name: name.clone(), builder, builder_steps: steps, flags, docs })
    }
}

/// An unknown flag in a prefix of the arguments stays the outcome for all
/// of them.
proof fn lemma_flags_error_persists(args: Seq<DeclarationArg>, k: int)
    requires
        0 <= k <= args.len(),
        explicit_flags(args.take(k)) is Err,
    ensures
        explicit_flags(args) == explicit_flags(args.take(k)),
    decreases args.len() - k,
{
    if k < args.len() {
        assert(args.take(k + 1).drop_last() =~= args.take(k));
        lemma_flags_error_persists(args, k + 1);
    } else {
        assert(args.take(k) =~= args);
    }
}

/// The getter and setter arms of a property's blocks, scanned in order,
/// or the first fault among them.
pub open spec fn scan_blocks(id: usize, blocks: Seq<Block>) -> Result<(Option<Arm>, Option<Arm>), GenError>
    decreases blocks.len(),
{
    if blocks.len() == 0 {
        Ok((None, None))
    } else {
        match scan_blocks(id, blocks.drop_last()) {
            Err(e) => Err(e),
            Ok((g, s)) => {
                let b = blocks.last();
                if b.name@ == "get"@ {
                    if g is Some {
                        Err(GenError::DuplicateGet)
                    } else {
                        Ok((Some(Arm { id, body: b.block }), s))
                    }
                } else if b.name@ == "set"@ {
                    if s is Some {
                        Err(GenError::DuplicateSet)
                    } else {
                        Ok((g, Some(Arm { id, body: b.block })))
                    }
                } else {
                    Err(GenError::UnsupportedBlock(b.name))
                }
            },
        }
    }
}

/// Whether an explicit flag needs the accessor block that is missing.
pub open spec fn conflicts_with(f: Flag, missing: Accessor) -> bool {
    match missing {
        Accessor::Setter => f == Flag::Writable || f == Flag::Readwrite || f == Flag::Construct
            || f == Flag::ConstructOnly,
        Accessor::Getter => f == Flag::Readable || f == Flag::Readwrite,
    }
}

/// The index of the first flag from `i` on that conflicts with the
/// missing accessor.
pub open spec fn first_conflict(flags: Seq<(FlagSource, Flag)>, missing: Accessor, i: int) -> Option<int>
    decreases flags.len() - i,
{
    if i < 0 || i >= flags.len() {
        None
    } else if conflicts_with(flags[i].1, missing) {
        Some(i)
    } else {
        first_conflict(flags, missing, i + 1)
    }
}

/// The accessor that a property with exactly one block lacks.
pub open spec fn missing_accessor(has_get: bool, has_set: bool) -> Option<Accessor> {
    if has_get && !has_set {
        Some(Accessor::Setter)
    } else if has_set && !has_get {
        Some(Accessor::Getter)
    } else {
        None
    }
}

/// The conflict diagnostic for a property's explicit flags, if any.
pub open spec fn conflict_of(name: String, flags: Seq<(FlagSource, Flag)>, missing: Option<Accessor>) -> Option<GenError> {
    match missing {
        None => None,
        Some(m) => match first_conflict(flags, m, 0) {
            None => None,
            Some(i) => match flags[i].0 {
                FlagSource::Explicit(p) => Some(GenError::Conflict { property: name, flag: p, missing: m }),
                FlagSource::Implied => None,
            },
        },
    }
}

/// The flag that the blocks imply.
pub open spec fn implied_flag(has_get: bool, has_set: bool) -> Flag {
    if has_get && !has_set {
        Flag::Readable
    } else if has_set && !has_get {
        Flag::Writable
    } else {
        Flag::Readwrite
    }
}

/// The flags alone, without where they came from.
pub open spec fn flag_values(flags: Seq<(FlagSource, Flag)>) -> Seq<Flag> {
    flags.map_values(|e: (FlagSource, Flag)| e.1)
}

/// `s` with every flag after its first occurrence left out.
pub open spec fn dedup(s: Seq<Flag>) -> Seq<Flag>
    decreases s.len(),
{
    if s.len() == 0 {
        Seq::empty()
    } else {
        let d = dedup(s.drop_last());
        if d.contains(s.last()) {
            d
        } else {
            d.push(s.last())
        }
    }
}

/// What generating property `p` under identifier `id` yields: its
/// descriptor and its getter and setter arms, or the first fault.
pub open spec fn generated(id: usize, p: Property) -> Result<(DescriptorModel, Option<Arm>, Option<Arm>), GenError> {
    match builder_of(p.head, p.name) {
        Err(e) => Err(e),
        Ok((b, rest)) => match explicit_flags(rest) {
            Err(e) => Err(e),
            Ok(fs) => match scan_blocks(id, p.blocks.0@) {
                Err(e) => Err(e),
                Ok((g, s)) => if g is None && s is None {
                    Err(GenError::MissingBlock)
                } else {
                    match conflict_of(p.name, fs, missing_accessor(g is Some, s is Some)) {
                        Some(e) => Err(e),
                        None => Ok((
                            DescriptorModel {
                                builder: b,
                                flags: dedup(flag_values(fs).push(implied_flag(g is Some, s is Some))),
                                blurb: blurb_of(views(p.head.doc@)),
                                steps: builder_steps(rest),
                            },
                            g,
                            s,
                        )),
                    }
                },
            },
        },
    }
}

/// A fault among the first blocks stays the outcome for all of them.
proof fn lemma_blocks_error_persists(id: usize, blocks: Seq<Block>, k: int)
    requires
        0 <= k <= blocks.len(),
        scan_blocks(id, blocks.take(k)) is Err,
    ensures
        scan_blocks(id, blocks) == scan_blocks(id, blocks.take(k)),
    decreases blocks.len() - k,
{
    if k < blocks.len() {
        assert(blocks.take(k + 1).drop_last() =~= blocks.take(k));
        lemma_blocks_error_persists(id, blocks, k + 1);
    } else {
        assert(blocks.take(k) =~= blocks);
    }
}

/// Scans the blocks in order into a getter and a setter arm.
fn scan(id: usize, list: Vec<Block>) -> (r: Result<(Option<Arm>, Option<Arm>), GenError>)
    ensures
        r == scan_blocks(id, list@),
{
    let ghost all = list@;
    let mut blocks = list;
    assert(all.len() == blocks.len());
    let mut getter: Option<Arm> = None;
    let mut setter: Option<Arm> = None;
    let mut i: usize = 0;
    while blocks.len() > 0
        invariant
            i + blocks@.len() == all.len(),
            all.len() <= usize::MAX,
            all == list@,
            blocks@ == all.skip(i as int),
            scan_blocks(id, all.take(i as int)) == Ok::<(Option<Arm>, Option<Arm>), GenError>((getter, setter)),
        decreases blocks.len(),
    {
        proof {
            assert(all.take(i as int + 1).drop_last() =~= all.take(i as int));
        }
        let ghost before = blocks@;
        let block = blocks.remove(0);
        proof {
            assert(before[0] == all[i as int]);
            assert(block == all.take(i as int + 1).last());
            assert(blocks@ =~= all.skip(i as int + 1));
        }
        let arm = Arm { id, body: block.block };
        if is_str(&block.name, "get") {
            if getter.is_some() {
                proof {
                    assert(scan_blocks(id, all.take(i as int + 1))
                        == Err::<(Option<Arm>, Option<Arm>), GenError>(GenError::DuplicateGet));
                    lemma_blocks_error_persists(id, all, i as int + 1);
                }
                return Err(GenError::DuplicateGet);
            }
            getter = Some(arm);
        } else if is_str(&block.name, "set") {
            if setter.is_some() {
                proof {
                    assert(scan_blocks(id, all.take(i as int + 1))
                        == Err::<(Option<Arm>, Option<Arm>), GenError>(GenError::DuplicateSet));
                    lemma_blocks_error_persists(id, all, i as int + 1);
                }
                return Err(GenError::DuplicateSet);
            }
            setter = Some(arm);
        } else {
            proof {
                lemma_blocks_error_persists(id, all, i as int + 1);
            }
            return Err(GenError::UnsupportedBlock(block.name));
        }
        i = i + 1;
    }
    assert(all.take(i as int) =~= all);
    Ok((getter, setter))
}

impl FlagSource {
    /// Whether the author wrote the flag.
    pub fn is_explicit(&self) -> (r: bool)
        ensures
            r == (*self is Explicit),
    {
        match self {
            FlagSource::Explicit(_) => true,
            FlagSource::Implied => false,
        }
    }
}

/// The flags of a descriptor: first occurrences only, in order.
fn generate_flags(flags: &Vec<(FlagSource, Flag)>) -> (r: Vec<Flag>)
    ensures
        r@ == dedup(flag_values(flags@)),
{
    let ghost vals = flag_values(flags@);
    let mut out: Vec<Flag> = Vec::new();
    let mut i: usize = 0;
    while i < flags.len()
        invariant
            0 <= i <= flags.len(),
            vals == flag_values(flags@),
            out@ == dedup(vals.take(i as int)),
        decreases flags.len() - i,
    {
        let f = flags[i].1;
        proof {
            assert(vals.take(i as int + 1).drop_last() =~= vals.take(i as int));
            assert(vals.take(i as int + 1).last() == f);
        }
        let mut seen = false;
        let mut j: usize = 0;
        while j < out.len()
            invariant
                0 <= j <= out.len(),
                seen == (exists|k: int| 0 <= k < j && out@[k] == f),
            decreases out.len() - j,
        {
            if out[j] == f {
                seen = true;
            }
            j = j + 1;
        }
        if !seen {
            proof {
                assert(!out@.contains(f));
            }
            out.push(f);
        } else {
            proof {
                let k = choose|k: int| 0 <= k < j && out@[k] == f;
                assert(out@.contains(f));
            }
        }
        i = i + 1;
    }
    assert(vals.take(flags.len() as int) =~= vals);
    out
}

/// The working state with all its fields but the flags kept, and `f`
/// appended to those.
spec fn with_flag(ps: ParamSpec, before: ParamSpec, f: Flag) -> bool {
    &&& ps.name == before.name
    &&& ps.builder == before.builder
    &&& ps.builder_steps@ == before.builder_steps@
    &&& ps.docs == before.docs
    &&& ps.flags@ == before.flags@.push((FlagSource::Implied, f))
}

impl ParamSpec {
    /// The index of the first flag that conflicts with the missing accessor.
    fn find_conflict(&self, missing: Accessor) -> (r: Option<usize>)
        ensures
            match r {
                Some(i) => i < self.flags@.len() && first_conflict(self.flags@, missing, 0) == Some(i as int),
                None => first_conflict(self.flags@, missing, 0) is None,
            },
    {
        let mut i: usize = 0;
        while i < self.flags.len()
            invariant
                0 <= i <= self.flags.len(),
                first_conflict(self.flags@, missing, 0) == first_conflict(self.flags@, missing, i as int),
            decreases self.flags.len() - i,
        {
            let f = self.flags[i].1;
            let hit = match missing {
                Accessor::Setter => f == Flag::Writable || f == Flag::Readwrite || f == Flag::Construct
                    || f == Flag::ConstructOnly,
                Accessor::Getter => f == Flag::Readable || f == Flag::Readwrite,
            };
            if hit {
                return Some(i);
            }
            i = i + 1;
        }
        None
    }

    /// Fails with a conflict diagnostic if an explicit flag needs the
    /// missing accessor.
    fn check_flag_conflict(self, missing: Accessor) -> (r: Result<ParamSpec, GenError>)
        ensures
            match conflict_of(self.name, self.flags@, Some(missing)) {
                Some(e) => r == Err::<ParamSpec, GenError>(e),
                None => r == Ok::<ParamSpec, GenError>(self),
            },
    {
        match self.find_conflict(missing) {
            None => Ok(self),
            Some(i) => {
                if self.flags[i].0.is_explicit() {
                    let mut flags = self.flags;
                    let (source, _) = flags.remove(i);
                    match source {
                        FlagSource::Explicit(p) => Err(GenError::Conflict { property: self.name, flag: p, missing }),
                        FlagSource::Implied => unreached(),
                    }
                } else {
                    Ok(self)
                }
            },
        }
    }

    /// A property with a getter only: implies `readable`.
    fn flag_read_only(self) -> (r: Result<ParamSpec, GenError>)
        ensures
            match conflict_of(self.name, self.flags@, Some(Accessor::Setter)) {
                Some(e) => r == Err::<ParamSpec, GenError>(e),
                None => r matches Ok(ps) && with_flag(ps, self, Flag::Readable),
            },
    {
        match self.check_flag_conflict(Accessor::Setter) {
            Err(e) => Err(e),
            Ok(mut ps) => {
                ps.flags.push((FlagSource::Implied, Flag::Readable));
                Ok(ps)
            },
        }
    }

    /// A property with a setter only: implies `writable`.
    fn flag_write_only(self) -> (r: Result<ParamSpec, GenError>)
        ensures
            match conflict_of(self.name, self.flags@, Some(Accessor::Getter)) {
                Some(e) => r == Err::<ParamSpec, GenError>(e),
                None => r matches Ok(ps) && with_flag(ps, self, Flag::Writable),
            },
    {
        match self.check_flag_conflict(Accessor::Getter) {
            Err(e) => Err(e),
            Ok(mut ps) => {
                ps.flags.push((FlagSource::Implied, Flag::Writable));
                Ok(ps)
            },
        }
    }

    /// A property with both blocks: implies `readwrite`, whatever the
    /// explicit flags are.
    fn flag_read_write(self) -> (r: ParamSpec)
        ensures
            with_flag(r, self, Flag::Readwrite),
    {
        let mut ps = self;
        ps.flags.push((FlagSource::Implied, Flag::Readwrite));
        ps
    }

    /// The descriptor expression.
    fn generate(self) -> (r: Descriptor)
        ensures
            r@ == (DescriptorModel {
                builder: self.builder,
                flags: dedup(flag_values(self.flags@)),
                blurb: opt_view(self.docs),
                steps: self.builder_steps@,
            }),
    {
        let flags = generate_flags(&self.flags);
        Descriptor { builder: self.builder, flags, blurb: self.docs, steps: self.builder_steps }
    }
}

/// Generates one property under identifier `id`: its descriptor, and its
/// getter and setter arms where it has those blocks.
pub fn property(id: usize, prop: Property) -> (r: Result<(Descriptor, Option<Arm>, Option<Arm>), GenError>)
    ensures
        match r {
            Ok((d, g, s)) => generated(id, prop) == Ok::<(DescriptorModel, Option<Arm>, Option<Arm>), GenError>((d@, g, s)),
            Err(e) => generated(id, prop) == Err::<(DescriptorModel, Option<Arm>, Option<Arm>), GenError>(e),
        },
{
    let Property { head, name, name_at: _, blocks } = prop;
    let param_spec = match ParamSpec::new(head, &name) {
        Err(e) => return Err(e),
        Ok(ps) => ps,
    };
    let (getter, setter) = match scan(id, blocks.0) {
        Err(e) => return Err(e),
        Ok(arms) => arms,
    };
    let ghost fs0 = param_spec.flags@;
    let param_spec = if getter.is_some() && setter.is_none() {
        match param_spec.flag_read_only() {
            Err(e) => return Err(e),
            Ok(ps) => ps,
        }
    } else if getter.is_none() && setter.is_some() {
        match param_spec.flag_write_only() {
            Err(e) => return Err(e),
            Ok(ps) => ps,
        }
    } else if getter.is_some() && setter.is_some() {
        param_spec.flag_read_write()
    } else {
        return Err(GenError::MissingBlock);
    };
    proof {
        let implied = implied_flag(getter is Some, setter is Some);
        assert(flag_values(param_spec.flags@) =~= flag_values(fs0).push(implied));
    }
    Ok((param_spec.generate(), getter, setter))
}

/// The explicit flags that a property's declaration gives, after its
/// builder has taken what it needs.
pub open spec fn declared_flags(p: Property) -> Result<Seq<(FlagSource, Flag)>, GenError> {
    match builder_of(p.head, p.name) {
        Err(e) => Err(e),
        Ok((_, rest)) => explicit_flags(rest),
    }
}

/// Whether some block of `blocks` has the name `n`.
pub open spec fn has_block(blocks: Seq<Block>, n: Seq<char>) -> bool {
    exists|k: int| 0 <= k < blocks.len() && #[trigger] blocks[k].name@ == n
}

/// Arguments without a bare tag give no explicit flag.
proof fn lemma_no_tags_no_flags(args: Seq<DeclarationArg>)
    requires
        forall|k: int| 0 <= k < args.len() ==> #[trigger] args[k] is KeyVal,
    ensures
        explicit_flags(args) == Ok::<Seq<(FlagSource, Flag)>, GenError>(Seq::empty()),
    decreases args.len(),
{
    if args.len() > 0 {
        let init = args.drop_last();
        assert forall|k: int| 0 <= k < init.len() implies #[trigger] init[k] is KeyVal by {
            assert(init[k] == args[k]);
        }
        lemma_no_tags_no_flags(init);
        assert(args[args.len() - 1] is KeyVal);
    }
}

/// Every flag that `explicit_flags` reads is marked as written by the
/// author.
proof fn lemma_flags_explicit(args: Seq<DeclarationArg>)
    ensures
        explicit_flags(args) matches Ok(fs) ==> forall|k: int| 0 <= k < fs.len() ==> (#[trigger] fs[k]).0 is Explicit,
    decreases args.len(),
{
    if args.len() > 0 {
        lemma_flags_explicit(args.drop_last());
    }
}

/// With a conflicting flag at or after `i`, `first_conflict` finds one.
proof fn lemma_first_conflict_found(flags: Seq<(FlagSource, Flag)>, m: Accessor, i: int, k: int)
    requires
        0 <= i <= k < flags.len(),
        conflicts_with(flags[k].1, m),
    ensures
        first_conflict(flags, m, i) matches Some(j) && i <= j <= k && conflicts_with(flags[j].1, m),
    decreases k - i,
{
    if !conflicts_with(flags[i].1, m) {
        lemma_first_conflict_found(flags, m, i + 1, k);
    }
}

/// What the blocks scan finds: an arm for the identifier exactly where a
/// block of that name exists.
pub proof fn lemma_scan_blocks(id: usize, blocks: Seq<Block>)
    ensures
        scan_blocks(id, blocks) matches Ok((g, s)) ==> {
            &&& (g is Some <==> has_block(blocks, "get"@))
            &&& (s is Some <==> has_block(blocks, "set"@))
            &&& (g matches Some(a) ==> a.id == id)
            &&& (s matches Some(a) ==> a.id == id)
        },
    decreases blocks.len(),
{
    reveal_strlit("get");
    reveal_strlit("set");
    assert("get"@ != "set"@) by {
        assert("get"@[0] != "set"@[0]);
    }
    if blocks.len() > 0 {
        let init = blocks.drop_last();
        lemma_scan_blocks(id, init);
        if scan_blocks(id, blocks) is Ok {
            assert forall|n: Seq<char>| has_block(blocks, n) <==> (has_block(init, n) || blocks.last().name@ == n) by {
                if has_block(blocks, n) {
                    let k = choose|k: int| 0 <= k < blocks.len() && #[trigger] blocks[k].name@ == n;
                    if k < init.len() {
                        assert(init[k].name@ == n);
                    }
                }
                if has_block(init, n) {
                    let k = choose|k: int| 0 <= k < init.len() && #[trigger] init[k].name@ == n;
                    assert(blocks[k].name@ == n);
                }
                if blocks.last().name@ == n {
                    assert(blocks[blocks.len() - 1].name@ == n);
                }
            }
        }
    }
}

/// A property with a `get` block only and no explicit flags gets exactly
/// the flag `readable`.
pub proof fn law_get_only_is_readable(id: usize, p: Property)
    requires
        builder_of(p.head, p.name) matches Ok((_, rest)) && forall|k: int|
            0 <= k < rest.len() ==> #[trigger] rest[k] is KeyVal,
        has_block(p.blocks.0@, "get"@),
        !has_block(p.blocks.0@, "set"@),
        generated(id, p) is Ok,
    ensures
        generated(id, p)->Ok_0.0.flags == seq![Flag::Readable],
{
    lemma_single_implied_flag(id, p);
}

/// A property with a `set` block only and no explicit flags gets exactly
/// the flag `writable`.
pub proof fn law_set_only_is_writable(id: usize, p: Property)
    requires
        builder_of(p.head, p.name) matches Ok((_, rest)) && forall|k: int|
            0 <= k < rest.len() ==> #[trigger] rest[k] is KeyVal,
        !has_block(p.blocks.0@, "get"@),
        has_block(p.blocks.0@, "set"@),
        generated(id, p) is Ok,
    ensures
        generated(id, p)->Ok_0.0.flags == seq![Flag::Writable],
{
    lemma_single_implied_flag(id, p);
}

/// A property with both blocks and no explicit flags gets exactly the
/// flag `readwrite`.
pub proof fn law_get_and_set_is_readwrite(id: usize, p: Property)
    requires
        builder_of(p.head, p.name) matches Ok((_, rest)) && forall|k: int|
            0 <= k < rest.len() ==> #[trigger] rest[k] is KeyVal,
        has_block(p.blocks.0@, "get"@),
        has_block(p.blocks.0@, "set"@),
        generated(id, p) is Ok,
    ensures
        generated(id, p)->Ok_0.0.flags == seq![Flag::Readwrite],
{
    lemma_single_implied_flag(id, p);
}

/// Without explicit flags, the descriptor's flags are the one flag that
/// the blocks imply.
proof fn lemma_single_implied_flag(id: usize, p: Property)
    requires
        builder_of(p.head, p.name) matches Ok((_, rest)) && forall|k: int|
            0 <= k < rest.len() ==> #[trigger] rest[k] is KeyVal,
        generated(id, p) is Ok,
    ensures
        scan_blocks(id, p.blocks.0@) matches Ok((g, s)) && generated(id, p)->Ok_0.0.flags == seq![
            implied_flag(g is Some, s is Some),
        ],
        (scan_blocks(id, p.blocks.0@) matches Ok((g, s)) && (g is Some <==> has_block(p.blocks.0@, "get"@)) && (
        s is Some <==> has_block(p.blocks.0@, "set"@))),
{
    let rest = builder_of(p.head, p.name)->Ok_0.1;
    lemma_no_tags_no_flags(rest);
    lemma_scan_blocks(id, p.blocks.0@);
    let (g, s) = scan_blocks(id, p.blocks.0@)->Ok_0;
    let f = implied_flag(g is Some, s is Some);
    let fs = Seq::<(FlagSource, Flag)>::empty();
    assert(flag_values(fs).push(f) =~= seq![f]);
    assert(seq![f].drop_last() =~= Seq::<Flag>::empty());
    assert(dedup(Seq::<Flag>::empty()) == Seq::<Flag>::empty());
    assert(Seq::<Flag>::empty().push(f) =~= seq![f]);
    assert(dedup(seq![f]) == seq![f]);
}

/// With both blocks, explicit flags never conflict: the property is
/// generated, and its flags are the explicit ones followed by `readwrite`,
/// each once.
pub proof fn law_read_write_never_conflicts(id: usize, p: Property)
    requires
        declared_flags(p) is Ok,
        scan_blocks(id, p.blocks.0@) is Ok,
        has_block(p.blocks.0@, "get"@),
        has_block(p.blocks.0@, "set"@),
    ensures
        generated(id, p) is Ok,
        generated(id, p)->Ok_0.0.flags == dedup(flag_values(declared_flags(p)->Ok_0).push(Flag::Readwrite)),
{
    lemma_scan_blocks(id, p.blocks.0@);
}

/// A property with a `get` block only and an explicit flag that needs a
/// setter (`writable`, `readwrite`, `construct`, `construct_only`) fails
/// with a conflict that names a missing `set` block.
pub proof fn law_conflict_without_set(id: usize, p: Property)
    requires
        declared_flags(p) matches Ok(fs) && exists|k: int|
            0 <= k < fs.len() && conflicts_with(#[trigger] fs[k].1, Accessor::Setter),
        scan_blocks(id, p.blocks.0@) is Ok,
        has_block(p.blocks.0@, "get"@),
        !has_block(p.blocks.0@, "set"@),
    ensures
        generated(id, p) matches Err(GenError::Conflict { missing: Accessor::Setter, .. }),
{
    lemma_conflict_found(id, p, Accessor::Setter);
}

/// A property with a `set` block only and an explicit flag that needs a
/// getter (`readable`, `readwrite`) fails with a conflict that names a
/// missing `get` block.
pub proof fn law_conflict_without_get(id: usize, p: Property)
    requires
        declared_flags(p) matches Ok(fs) && exists|k: int|
            0 <= k < fs.len() && conflicts_with(#[trigger] fs[k].1, Accessor::Getter),
        scan_blocks(id, p.blocks.0@) is Ok,
        !has_block(p.blocks.0@, "get"@),
        has_block(p.blocks.0@, "set"@),
    ensures
        generated(id, p) matches Err(GenError::Conflict { missing: Accessor::Getter, .. }),
{
    lemma_conflict_found(id, p, Accessor::Getter);
}

proof fn lemma_conflict_found(id: usize, p: Property, m: Accessor)
    requires
        declared_flags(p) matches Ok(fs) && exists|k: int|
            0 <= k < fs.len() && conflicts_with(#[trigger] fs[k].1, m),
        scan_blocks(id, p.blocks.0@) is Ok,
        missing_accessor(
            has_block(p.blocks.0@, "get"@),
            has_block(p.blocks.0@, "set"@),
        ) == Some(m),
    ensures
        generated(id, p) matches Err(GenError::Conflict { missing, .. }) && missing == m,
{
    lemma_scan_blocks(id, p.blocks.0@);
    let rest = builder_of(p.head, p.name)->Ok_0.1;
    let fs = declared_flags(p)->Ok_0;
    lemma_flags_explicit(rest);
    let k = choose|k: int| 0 <= k < fs.len() && conflicts_with(#[trigger] fs[k].1, m);
    lemma_first_conflict_found(fs, m, 0, k);
    let j = first_conflict(fs, m, 0)->Some_0;
    assert(fs[j].0 is Explicit);
}

/// A descriptor lists each flag once, lists every flag that was given or
/// implied, and keeps the order of first occurrence: the flags of any
/// prefix of the given ones come first.
pub proof fn law_flags_deduplicated(s: Seq<Flag>)
    ensures
        forall|i: int, j: int| 0 <= i < j < dedup(s).len() ==> dedup(s)[i] != dedup(s)[j],
        forall|f: Flag| s.contains(f) <==> dedup(s).contains(f),
        forall|k: int| 0 <= k <= s.len() ==> #[trigger] dedup(s.take(k)).is_prefix_of(dedup(s)),
    decreases s.len(),
{
    if s.len() == 0 {
        assert forall|k: int| 0 <= k <= s.len() implies #[trigger] dedup(s.take(k)).is_prefix_of(dedup(s)) by {
            assert(s.take(k) =~= s);
        }
    } else {
        let init = s.drop_last();
        law_flags_deduplicated(init);
        let d = dedup(init);
        assert forall|f: Flag| s.contains(f) <==> dedup(s).contains(f) by {
            if s.contains(f) {
                let i = choose|i: int| 0 <= i < s.len() && s[i] == f;
                if i < init.len() {
                    assert(init[i] == f);
                    assert(init.contains(f));
                    assert(d.contains(f));
                    let m = choose|m: int| 0 <= m < d.len() && d[m] == f;
                    assert(dedup(s)[m] == f);
                } else {
                    if !d.contains(f) {
                        assert(dedup(s)[d.len() as int] == f);
                    }
                }
            }
            if dedup(s).contains(f) {
                let m = choose|m: int| 0 <= m < dedup(s).len() && dedup(s)[m] == f;
                if m < d.len() {
                    assert(d[m] == f);
                    assert(init.contains(f));
                    let i = choose|i: int| 0 <= i < init.len() && init[i] == f;
                    assert(s[i] == f);
                } else {
                    assert(s[s.len() - 1] == f);
                }
            }
        }
        assert(d.is_prefix_of(dedup(s)));
        assert forall|k: int| 0 <= k <= s.len() implies #[trigger] dedup(s.take(k)).is_prefix_of(dedup(s)) by {
            if k == s.len() {
                assert(s.take(k) =~= s);
            } else {
                assert(s.take(k) =~= init.take(k));
                let a = dedup(init.take(k));
                assert(a.is_prefix_of(d));
                assert(a =~= dedup(s).subrange(0, a.len() as int));
            }
        }
    }
}

/// A declaration `object(T, ..)` builds an object descriptor for the
/// element type `T`; without arguments, or with `key = value` first, it
/// is rejected.
pub proof fn law_object_type(id: usize, p: Property)
    requires
        p.head.declaration.tag@ == "object"@,
    ensures
        decl_args(p.head).len() == 0 ==> generated(id, p) == Err::<(DescriptorModel, Option<Arm>, Option<Arm>), GenError>(
            GenError::MissingObjectType,
        ),
        decl_args(p.head).len() > 0 && decl_args(p.head)[0] is KeyVal ==> generated(id, p) == Err::<
            (DescriptorModel, Option<Arm>, Option<Arm>),
            GenError,
        >(GenError::ObjectTypeNotPath),
        generated(id, p) matches Ok((d, _, _)) ==> d.builder == Builder::Object(p.name, decl_args(p.head)[0]->Tag_0),
{
    reveal_strlit("object");
    reveal_strlit("boolean");
    reveal_strlit("char");
    reveal_strlit("double");
    reveal_strlit("float");
    reveal_strlit("int");
    reveal_strlit("int64");
    reveal_strlit("long");
    reveal_strlit("string");
    assert("object"@[0] != "boolean"@[0]);
    assert("object"@[0] != "char"@[0]);
    assert("object"@[0] != "double"@[0]);
    assert("object"@[0] != "float"@[0]);
    assert("object"@[0] != "int"@[0]);
    assert("object"@[0] != "int64"@[0]);
    assert("object"@[0] != "long"@[0]);
    assert("object"@[0] != "string"@[0]);
    assert(value_type_named("object"@) is None);
}

/// A property's documentation lines, joined by newlines and trimmed, are
/// its blurb; without documentation it has none.
pub proof fn law_documentation(id: usize, p: Property)
    requires
        generated(id, p) is Ok,
    ensures
        p.head.doc@.len() == 0 ==> generated(id, p)->Ok_0.0.blurb is None,
        p.head.doc@.len() > 0 ==> generated(id, p)->Ok_0.0.blurb == Some(trim_ws(join_with(views(p.head.doc@), "\n"@))),
{
}

} // verus!
