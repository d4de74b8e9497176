use vstd::prelude::*;

use sha3::Digest;

use crate::error::AbiError;
use crate::types::EthereumTypes;
use crate::types::spec_type_name;
use crate::types::spec_word;

verus! {

/// One function of a parsed interface description: its name and its declared
/// parameter type-names, in positional order.
pub struct FunctionEntry {
    pub name: String,
    pub inputs: Vec<String>,
}

/// The index of the first entry whose name matches, scanning in order;
/// `None` when no entry matches.
pub open spec fn find_function(desc: Seq<FunctionEntry>, name: Seq<char>) -> Option<int>
    decreases desc.len(),
{
    if desc.len() == 0 {
        None
    } else if desc[0].name@ == name {
        Some(0int)
    } else {
        match find_function(desc.drop_first(), name) {
            Some(i) => Some(i + 1),
            None => None,
        }
    }
}

/// Position `k` validates: a parameter is declared there and its type-name
/// equals the canonical name of the argument at the same position.
pub open spec fn type_ok(declared: Seq<Seq<char>>, args: Seq<EthereumTypes>, k: int) -> bool {
    k < declared.len() && declared[k] == spec_type_name(args[k])
}

/// Every position before `n` validates.
pub open spec fn types_match_up_to(
    declared: Seq<Seq<char>>,
    args: Seq<EthereumTypes>,
    n: int,
) -> bool {
    forall|k: int| 0 <= k < n ==> #[trigger] type_ok(declared, args, k)
}

/// Every supplied argument position validates against the declared list.
pub open spec fn args_match(declared: Seq<Seq<char>>, args: Seq<EthereumTypes>) -> bool {
    types_match_up_to(declared, args, args.len() as int)
}

/// `j` is the first argument position, scanning left to right, at which
/// validation fails: either no parameter is declared there, or the declared
/// type-name differs from the argument's canonical name.
pub open spec fn first_mismatch_at(
    declared: Seq<Seq<char>>,
    args: Seq<EthereumTypes>,
    j: int,
) -> bool {
    &&& 0 <= j < args.len()
    &&& types_match_up_to(declared, args, j)
    &&& !type_ok(declared, args, j)
}

/// Two first failing positions are the same position.
proof fn lemma_first_mismatch_unique(
    declared: Seq<Seq<char>>,
    args: Seq<EthereumTypes>,
    j: int,
    j2: int,
)
    requires
        first_mismatch_at(declared, args, j),
        first_mismatch_at(declared, args, j2),
    ensures
        j == j2,
{
    if j < j2 {
        assert(type_ok(declared, args, j));
    } else if j2 < j {
        assert(type_ok(declared, args, j2));
    }
}

/// The error owed at a first failing position `j`: a missing declared
/// parameter makes the description malformed; a differing type-name is a
/// mismatch that names the declared type, the found type and the position.
pub open spec fn error_at(
    r: Result<Vec<u8>, AbiError>,
    declared: Seq<Seq<char>>,
    args: Seq<EthereumTypes>,
    j: int,
) -> bool {
    if j >= declared.len() {
        r == Err::<Vec<u8>, AbiError>(AbiError::MalformedDescription)
    } else {
        r matches Err(e) && e matches AbiError::TypeMismatch { expected, found, position }
            && expected@ == declared[j] && found@ == spec_type_name(args[j]) && position == j
    }
}

/// The type-names joined with a comma between neighbours, no other text.
pub open spec fn joined_types(ts: Seq<Seq<char>>) -> Seq<char>
    decreases ts.len(),
{
    if ts.len() == 0 {
        Seq::empty()
    } else if ts.len() == 1 {
        ts[0]
    } else {
        joined_types(ts.drop_last()) + ","@ + ts.last()
    }
}

/// The canonical signature: the name, then the joined type-names between
/// parentheses, with no whitespace.
pub open spec fn signature_chars(name: Seq<char>, ts: Seq<Seq<char>>) -> Seq<char> {
    name + "("@ + joined_types(ts) + ")"@
}

/// The 32-byte words of the arguments, concatenated in argument order.
pub open spec fn packed_words(args: Seq<EthereumTypes>) -> Seq<u8>
    decreases args.len(),
{
    if args.len() == 0 {
        Seq::<u8>::empty()
    } else {
        packed_words(args.drop_last()) + spec_word(args.last())
    }
}

/// The Keccak-256 digest of a text's UTF-8 bytes.
pub uninterp spec fn keccak256_of(text: Seq<char>) -> Seq<u8>;

/// The calldata owed for a call: the first 4 bytes of the Keccak-256 digest
/// of the canonical signature, then one 32-byte word per argument.
pub open spec fn spec_calldata(
    name: Seq<char>,
    ts: Seq<Seq<char>>,
    args: Seq<EthereumTypes>,
) -> Seq<u8> {
    keccak256_of(signature_chars(name, ts)).take(4) + packed_words(args)
}

/// Relies on sha3::Keccak256, which pads with 0x01 as Keccak does, not with
/// 0x06 as NIST SHA3-256 does: the digest is 32 bytes and depends on the
/// hashed text alone.
#[verifier::external_body]
fn keccak256(text: &str) -> (r: Vec<u8>)
    ensures
        r@ == keccak256_of(text@),
        r@.len() == 32,
{
    sha3::Keccak256::digest(text.as_bytes()).to_vec()
}

/// Concatenated words take 32 bytes per argument.
proof fn lemma_packed_words_len(args: Seq<EthereumTypes>)
    ensures
        packed_words(args).len() == 32 * args.len(),
    decreases args.len(),
{
    if args.len() > 0 {
        lemma_packed_words_len(args.drop_last());
        match args.last() {
            EthereumTypes::Address(_) => {}
            EthereumTypes::U256(_) => {}
        }
    }
}

/// A position that matches, with every position before it missing its match,
/// is exactly where `find_function` points; a scan that matched nowhere means
/// `find_function` finds nothing.
proof fn lemma_find_function_at(desc: Seq<FunctionEntry>, name: Seq<char>, i: int)
    requires
        0 <= i <= desc.len(),
        forall|k: int| 0 <= k < i ==> desc[k].name@ != name,
        i < desc.len() ==> desc[i].name@ == name,
    ensures
        i < desc.len() ==> find_function(desc, name) == Some(i),
        i == desc.len() ==> find_function(desc, name) is None,
    decreases desc.len(),
{
    if desc.len() > 0 {
        if desc[0].name@ == name {
            assert(i == 0);
        } else {
            let rest = desc.drop_first();
            assert(forall|k: int| 0 <= k < i - 1 ==> rest[k].name@ != name);
            lemma_find_function_at(rest, name, i - 1);
        }
    }
}

/// Encodes a function call as calldata: finds the first entry of
/// `description` named `function_name`, validates each supplied argument's
/// canonical type against the declared parameter type at the same position,
/// hashes the canonical signature, and returns the 4-byte selector followed
/// by one 32-byte word per argument.
pub fn encode_call(
    description: &Vec<FunctionEntry>,
    function_name: &str,
    arguments: &Vec<EthereumTypes>,
) -> (r: Result<Vec<u8>, AbiError>)
    ensures
        find_function(description@, function_name@) is None ==> (r matches Err(e)
            && e matches AbiError::FunctionNotFound(f) && f@ == function_name@),
        r matches Err(e) ==> (e is FunctionNotFound ==> find_function(
            description@,
            function_name@,
        ) is None),
        find_function(description@, function_name@) matches Some(i) ==> (args_match(
            description@[i].inputs.deep_view(),
            arguments@,
        ) <==> r is Ok),
        find_function(description@, function_name@) matches Some(i) ==> (r matches Ok(out)
            ==> out@ == spec_calldata(
            function_name@,
            description@[i].inputs.deep_view().take(arguments@.len() as int),
            arguments@,
        )),
        r matches Ok(out) ==> out@.len() == 4 + 32 * arguments@.len(),
        find_function(description@, function_name@) matches Some(i) ==> (forall|j: int|
            first_mismatch_at(description@[i].inputs.deep_view(), arguments@, j) ==> error_at(
                r,
                description@[i].inputs.deep_view(),
                arguments@,
                j,
            )),
{
    let ghost dv = description@;
    let ghost nm = function_name@;
    let target: String = function_name.to_owned();

    // find the function name in the description
    let mut i: usize = 0;
    let mut found: bool = false;
    while !found && i < description.len()
        invariant
            dv == description@,
            target@ == nm,
            i <= dv.len(),
            forall|k: int| 0 <= k < i ==> dv[k].name@ != nm,
            found ==> i < dv.len() && dv[i as int].name@ == nm,
        decreases dv.len() - i + (if found { 0int } else { 1int }),
    {
        if description[i].name == target {
            found = true;
        } else {
            i = i + 1;
        }
    }

    // if the given function name was not found, return an error
    if !found {
        proof {
            lemma_find_function_at(dv, nm, dv.len() as int);
        }
        return Err(AbiError::FunctionNotFound(target));
    }
    proof {
        lemma_find_function_at(dv, nm, i as int);
    }

    let entry: &FunctionEntry = &description[i];
    let ghost declared: Seq<Seq<char>> = entry.inputs.deep_view();
    proof {
        assert(declared == dv[i as int].inputs.deep_view());
    }
    let m: usize = arguments.len();

    // validate the supplied arguments against the declared parameters,
    // position by position, stopping at the first violation
    let mut j: usize = 0;
    while j < m
        invariant
            dv == description@,
            nm == function_name@,
            m == arguments@.len(),
            0 <= i < dv.len(),
            find_function(dv, nm) == Some(i as int),
            declared == entry.inputs.deep_view(),
            declared == dv[i as int].inputs.deep_view(),
            j <= m,
            types_match_up_to(declared, arguments@, j as int),
        decreases m - j,
    {
        if j < entry.inputs.len() {
            let got: String = arguments[j].name_as_str().to_owned();
            let expected_ref: &String = &entry.inputs[j];
            if *expected_ref == got {
                proof {
                    assert(declared[j as int] == entry.inputs@[j as int]@);
                    assert(type_ok(declared, arguments@, j as int));
                    assert(types_match_up_to(declared, arguments@, j + 1));
                }
            } else {
                let res = Err(
                    AbiError::TypeMismatch {
                        expected: expected_ref.clone(),
                        found: got,
                        position: j,
                    },
                );
                proof {
                    assert(declared[j as int] == entry.inputs@[j as int]@);
                    assert(first_mismatch_at(declared, arguments@, j as int));
                    assert forall|j2: int|
                        first_mismatch_at(declared, arguments@, j2) implies error_at(
                        res,
                        declared,
                        arguments@,
                        j2,
                    ) by {
                        lemma_first_mismatch_unique(declared, arguments@, j as int, j2);
                    };
                }
                return res;
            }
        } else {
            let res = Err(AbiError::MalformedDescription);
            proof {
                assert(declared.len() == entry.inputs@.len());
                assert(first_mismatch_at(declared, arguments@, j as int));
                assert forall|j2: int|
                    first_mismatch_at(declared, arguments@, j2) implies error_at(
                    res,
                    declared,
                    arguments@,
                    j2,
                ) by {
                    lemma_first_mismatch_unique(declared, arguments@, j as int, j2);
                };
            }
            return res;
        }
        j = j + 1;
    }

    // construct the complete function signature from the declared type-names
    // at the supplied positions
    let ghost sig_types: Seq<Seq<char>> = declared.take(m as int);
    proof {
        if m > 0 {
            assert(type_ok(declared, arguments@, m - 1));
        }
        assert(sig_types.len() == m);
    }
    let mut signature: String = function_name.to_owned();
    signature.append("(");
    proof {
        assert(sig_types.take(0int) =~= Seq::<Seq<char>>::empty());
        assert(signature@ =~= nm + "("@ + joined_types(sig_types.take(0int)));
    }
    let mut j: usize = 0;
    while j < m
        invariant
            m == arguments@.len(),
            declared == entry.inputs.deep_view(),
            m <= declared.len(),
            sig_types == declared.take(m as int),
            sig_types.len() == m,
            types_match_up_to(declared, arguments@, m as int),
            j <= m,
            signature@ == nm + "("@ + joined_types(sig_types.take(j as int)),
        decreases m - j,
    {
        if j > 0 {
            signature.append(",");
        }
        proof {
            assert(type_ok(declared, arguments@, j as int));
            assert(declared[j as int] == entry.inputs@[j as int]@);
        }
        signature.append(entry.inputs[j].as_str());
        proof {
            assert(sig_types.take(j + 1).drop_last() =~= sig_types.take(j as int));
            assert(sig_types.take(j + 1).len() == j + 1);
            assert(sig_types.take(j + 1)[j as int] == sig_types[j as int]);
            assert(sig_types[j as int] == declared[j as int]);
            assert(sig_types.take(j + 1).last() == declared[j as int]);
            assert(signature@ =~= nm + "("@ + joined_types(sig_types.take(j + 1)));
        }
        j = j + 1;
    }
    signature.append(")");
    proof {
        assert(sig_types.take(m as int) =~= sig_types);
        assert(signature@ =~= signature_chars(nm, sig_types));
    }

    // perform the keccak hashing and keep the first 4 bytes as the selector
    let hash: Vec<u8> = keccak256(signature.as_str());
    let ghost hv = hash@;
    let mut out: Vec<u8> = hash;
    out.truncate(4);
    proof {
        assert(out@ =~= hv.take(4));
    }

    // append the provided arguments, one 32-byte word each
    let mut a: usize = 0;
    while a < m
        invariant
            m == arguments@.len(),
            a <= m,
            out@ == hv.take(4) + packed_words(arguments@.take(a as int)),
        decreases m - a,
    {
        let w: [u8; 32] = arguments[a].value_as_u256();
        proof {
            assert(w@.take(0int) =~= Seq::<u8>::empty());
            assert(out@ =~= hv.take(4) + packed_words(arguments@.take(a as int)) + w@.take(0int));
        }
        let mut t: usize = 0;
        while t < 32
            invariant
                m == arguments@.len(),
                a < m,
                t <= 32,
                w@ == spec_word(arguments@[a as int]),
                w@.len() == 32,
                out@ == hv.take(4) + packed_words(arguments@.take(a as int)) + w@.take(t as int),
            decreases 32 - t,
        {
            out.push(w[t]);
            proof {
                assert(w@.take(t + 1) =~= w@.take(t as int).push(w@[t as int]));
                assert(out@ =~= hv.take(4) + packed_words(arguments@.take(a as int)) + w@.take(
                    t + 1,
                ));
            }
            t = t + 1;
        }
        proof {
            assert(w@.take(32int) =~= w@);
            assert(arguments@.take(a + 1).drop_last() =~= arguments@.take(a as int));
            assert(arguments@.take(a + 1).last() == arguments@[a as int]);
            assert(out@ =~= hv.take(4) + packed_words(arguments@.take(a + 1)));
        }
        a = a + 1;
    }
    proof {
        assert(arguments@.take(m as int) =~= arguments@);
        lemma_packed_words_len(arguments@);
        assert(out@ == spec_calldata(nm, sig_types, arguments@));
        assert forall|j2: int| !first_mismatch_at(declared, arguments@, j2) by {
            if 0 <= j2 < arguments@.len() {
                assert(type_ok(declared, arguments@, j2));
            }
        };
    }
    Ok(out)
}

} // verus!
