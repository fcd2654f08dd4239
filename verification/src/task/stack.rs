//! The initial stack of a user task: the argument strings, the argument
//! vector, the (empty) environment and the auxiliary vector, as the
//! program's C runtime expects to find them on entry.
//!
//! From the final stack pointer upwards the stack holds, one machine word
//! each: the argument count; a pointer to each argument string; a zero
//! word that ends the argument vector; a zero word that ends the
//! environment; the auxiliary vector as pairs of a tag and a value, ended
//! by the pair of the NULL tag; and one more zero word. The strings lie
//! above, each followed by a zero byte.

use vstd::bytes::{spec_u64_to_le_bytes, u64_to_le_bytes};
use vstd::prelude::*;

use crate::config::{ALIGN_SIZE, DEFAULT_USER_STACK_SIZE, DEFAULT_USER_STACK_TOP};
use crate::utils::{lemma_overlay_append, lemma_overlay_empty, overlay, overlay_into, zeros};

verus! {

/// The lowest address of the user stack.
pub const USER_STACK_BASE: u64 = DEFAULT_USER_STACK_TOP - DEFAULT_USER_STACK_SIZE;

/// The tags of the auxiliary vector.
#[allow(non_camel_case_types)]
#[derive(Clone, Copy, Debug, PartialEq, Eq, Structural)]
pub enum AuxV {
    /// end of vector
    NULL,
    /// entry should be ignored
    IGNORE,
    /// file descriptor of program
    EXECFD,
    /// program headers for program
    PHDR,
    /// size of program header entry
    PHENT,
    /// number of program headers
    PHNUM,
    /// system page size
    PAGESZ,
    /// base address of interpreter
    BASE,
    /// flags
    FLAGS,
    /// entry point of program
    ENTRY,
    /// program is not ELF
    NOTELF,
    /// real uid
    UID,
    /// effective uid
    EUID,
    /// real gid
    GID,
    /// effective gid
    EGID,
    /// string identifying CPU for optimizations
    PLATFORM,
    /// arch dependent hints at CPU capabilities
    HWCAP,
    /// frequency at which times() increments
    CLKTCK,
    /// data cache block size
    DCACHEBSIZE,
    /// secure mode boolean
    SECURE,
    /// string identifying real platform, may differ from PLATFORM
    BASE_PLATFORM,
    /// address of 16 random bytes
    RANDOM,
    /// extension of HWCAP
    HWCAP2,
    /// filename of program
    EXECFN,
}

impl AuxV {
    /// The number that stands for the tag in the auxiliary vector.
    pub open spec fn tag_spec(self) -> u64 {
        match self {
            AuxV::NULL => 0,
            AuxV::IGNORE => 1,
            AuxV::EXECFD => 2,
            AuxV::PHDR => 3,
            AuxV::PHENT => 4,
            AuxV::PHNUM => 5,
            AuxV::PAGESZ => 6,
            AuxV::BASE => 7,
            AuxV::FLAGS => 8,
            AuxV::ENTRY => 9,
            AuxV::NOTELF => 10,
            AuxV::UID => 11,
            AuxV::EUID => 12,
            AuxV::GID => 13,
            AuxV::EGID => 14,
            AuxV::PLATFORM => 15,
            AuxV::HWCAP => 16,
            AuxV::CLKTCK => 17,
            AuxV::DCACHEBSIZE => 19,
            AuxV::SECURE => 23,
            AuxV::BASE_PLATFORM => 24,
            AuxV::RANDOM => 25,
            AuxV::HWCAP2 => 26,
            AuxV::EXECFN => 31,
        }
    }

    /// The number that stands for the tag in the auxiliary vector.
    #[verifier::when_used_as_spec(tag_spec)]
    pub fn tag(self) -> (tag: u64)
        ensures
            tag == self.tag_spec(),
    {
        match self {
            AuxV::NULL => 0,
            AuxV::IGNORE => 1,
            AuxV::EXECFD => 2,
            AuxV::PHDR => 3,
            AuxV::PHENT => 4,
            AuxV::PHNUM => 5,
            AuxV::PAGESZ => 6,
            AuxV::BASE => 7,
            AuxV::FLAGS => 8,
            AuxV::ENTRY => 9,
            AuxV::NOTELF => 10,
            AuxV::UID => 11,
            AuxV::EUID => 12,
            AuxV::GID => 13,
            AuxV::EGID => 14,
            AuxV::PLATFORM => 15,
            AuxV::HWCAP => 16,
            AuxV::CLKTCK => 17,
            AuxV::DCACHEBSIZE => 19,
            AuxV::SECURE => 23,
            AuxV::BASE_PLATFORM => 24,
            AuxV::RANDOM => 25,
            AuxV::HWCAP2 => 26,
            AuxV::EXECFN => 31,
        }
    }
}

/// Why no initial stack could be laid out.
#[derive(Clone, Copy, Debug, PartialEq, Eq, Structural)]
pub enum StackError {
    /// There is no argument, so no name of the program.
    NoArguments,
    /// The arguments and the vectors do not fit into the stack.
    TooLong,
}

/// Where an argument string of `len` bytes is placed below `sp`: with
/// room for its bytes and a zero byte, at a word boundary.
pub open spec fn arg_place(sp: int, len: int) -> int {
    (sp - len - 1) / (ALIGN_SIZE as int) * ALIGN_SIZE
}

/// The address of the last of `args`, which is the lowest address that
/// the strings of `args` take; the stack top where there is none.
pub open spec fn args_bottom(args: Seq<Seq<u8>>) -> int
    decreases args.len(),
{
    if args.len() == 0 {
        DEFAULT_USER_STACK_TOP as int
    } else {
        arg_place(args_bottom(args.drop_last()), args.last().len() as int)
    }
}

/// The address of each string of `args`.
pub open spec fn arg_addrs(args: Seq<Seq<u8>>) -> Seq<u64> {
    Seq::new(args.len(), |i: int| args_bottom(args.take(i + 1)) as u64)
}

/// The number of words below the strings, for `argc` arguments.
pub open spec fn word_count(argc: nat) -> nat {
    argc + 20
}

/// The stack pointer on entry: below the strings, with room for the words.
pub open spec fn initial_sp(args: Seq<Seq<u8>>) -> int {
    args_bottom(args) - 8 * word_count(args.len())
}

/// Whether the strings and the words fit into the stack.
pub open spec fn stack_fits(args: Seq<Seq<u8>>) -> bool {
    initial_sp(args) >= USER_STACK_BASE
}

/// The words from the stack pointer upwards, for the argument strings at
/// the addresses `argv` and a program that starts at `entry`.
pub open spec fn stack_words(argv: Seq<u64>, entry: u64) -> Seq<u64> {
    seq![argv.len() as u64] + argv + seq![
        0u64,
        0u64,
        AuxV::EXECFN.tag_spec(),
        argv[0],
        AuxV::EGID.tag_spec(),
        0u64,
        AuxV::GID.tag_spec(),
        0u64,
        AuxV::EUID.tag_spec(),
        0u64,
        AuxV::UID.tag_spec(),
        0u64,
        AuxV::ENTRY.tag_spec(),
        entry,
        AuxV::PAGESZ.tag_spec(),
        4096u64,
        AuxV::NULL.tag_spec(),
        0u64,
        0u64,
    ]
}

/// The bytes of `words`, each word with its lowest byte first.
pub open spec fn words_bytes(words: Seq<u64>) -> Seq<u8>
    decreases words.len(),
{
    if words.len() == 0 {
        Seq::empty()
    } else {
        words_bytes(words.drop_last()) + spec_u64_to_le_bytes(words.last())
    }
}

/// The stack with the strings of `args` in place and zeros elsewhere.
/// Position 0 stands for the address [`USER_STACK_BASE`].
pub open spec fn args_image(args: Seq<Seq<u8>>) -> Seq<u8>
    decreases args.len(),
{
    if args.len() == 0 {
        zeros(DEFAULT_USER_STACK_SIZE as nat)
    } else {
        overlay(
            args_image(args.drop_last()),
            args_bottom(args) - USER_STACK_BASE,
            args.last(),
        )
    }
}

/// The bytes of the whole stack on entry. Position 0 stands for the
/// address [`USER_STACK_BASE`].
pub open spec fn stack_image(args: Seq<Seq<u8>>, entry: u64) -> Seq<u8> {
    overlay(
        args_image(args),
        initial_sp(args) - USER_STACK_BASE,
        words_bytes(stack_words(arg_addrs(args), entry)),
    )
}

/// The strings are placed at word boundaries from the stack top down: no
/// prefix of the arguments ends lower than the whole.
pub proof fn lemma_args_bottom(args: Seq<Seq<u8>>, n: int)
    requires
        0 <= n <= args.len(),
    ensures
        args_bottom(args) <= args_bottom(args.take(n)) <= DEFAULT_USER_STACK_TOP,
        args_bottom(args) % 8 == 0,
        n < args.len() ==> args_bottom(args) <= args_bottom(args.take(n)) - 8,
    decreases args.len(),
{
    if args.len() == 0 {
        assert(args.take(n) =~= args);
    } else if n == args.len() {
        assert(args.take(n) =~= args);
        lemma_args_bottom(args.drop_last(), 0);
    } else {
        assert(args.drop_last().take(n) =~= args.take(n));
        lemma_args_bottom(args.drop_last(), n);
    }
}

/// The bytes of `n` words are `8 * n` bytes.
pub proof fn lemma_words_bytes_len(words: Seq<u64>)
    ensures
        words_bytes(words).len() == 8 * words.len(),
    decreases words.len(),
{
    vstd::bytes::lemma_auto_spec_u64_to_from_le_bytes();
    if words.len() > 0 {
        lemma_words_bytes_len(words.drop_last());
    }
}

/// The bytes of the word at place `i` of `words` are the eight bytes at
/// `8 * i` of the bytes of `words`.
pub proof fn lemma_words_bytes_at(words: Seq<u64>, i: int)
    requires
        0 <= i < words.len(),
    ensures
        words_bytes(words).len() == 8 * words.len(),
        words_bytes(words).subrange(8 * i, 8 * i + 8) == spec_u64_to_le_bytes(words[i]),
    decreases words.len(),
{
    vstd::bytes::lemma_auto_spec_u64_to_from_le_bytes();
    lemma_words_bytes_len(words);
    lemma_words_bytes_len(words.drop_last());
    if i == words.len() - 1 {
        assert(words_bytes(words).subrange(8 * i, 8 * i + 8) =~= spec_u64_to_le_bytes(
            words.last(),
        ));
    } else {
        lemma_words_bytes_at(words.drop_last(), i);
        assert(words_bytes(words).subrange(8 * i, 8 * i + 8) =~= words_bytes(
            words.drop_last(),
        ).subrange(8 * i, 8 * i + 8));
    }
}

/// Where the strings fit into the stack, each lies at its address with
/// a zero byte behind it, and below the lowest of them the stack holds
/// zeros.
pub proof fn lemma_args_image(args: Seq<Seq<u8>>)
    requires
        args_bottom(args) >= USER_STACK_BASE,
    ensures
        args_image(args).len() == DEFAULT_USER_STACK_SIZE,
        forall|i: int| 0 <= i < args_bottom(args) - USER_STACK_BASE ==> args_image(args)[i] == 0,
        forall|k: int|
            0 <= k < args.len() ==> {
                let at = #[trigger] args_bottom(args.take(k + 1)) - USER_STACK_BASE;
                &&& 0 <= at
                &&& at + args[k].len() < DEFAULT_USER_STACK_SIZE
                &&& args_image(args).subrange(at, at + args[k].len()) == args[k]
                &&& args_image(args)[at + args[k].len()] == 0
            },
    decreases args.len(),
{
    if args.len() > 0 {
        let prev = args.drop_last();
        let last = args.last();
        lemma_args_bottom(args, args.len() - 1);
        assert(args.take(args.len() - 1) =~= prev);
        lemma_args_bottom(prev, 0);
        lemma_args_image(prev);
        let bottom = args_bottom(args);
        let image = args_image(args);
        let before = args_image(prev);
        assert(bottom + last.len() + 1 <= args_bottom(prev));
        assert forall|k: int| 0 <= k < args.len() implies {
            let at = #[trigger] args_bottom(args.take(k + 1)) - USER_STACK_BASE;
            &&& 0 <= at
            &&& at + args[k].len() < DEFAULT_USER_STACK_SIZE
            &&& image.subrange(at, at + args[k].len()) == args[k]
            &&& image[at + args[k].len()] == 0
        } by {
            let at = args_bottom(args.take(k + 1)) - USER_STACK_BASE;
            if k == args.len() - 1 {
                assert(args.take(k + 1) =~= args);
                assert(image.subrange(at, at + last.len()) =~= last);
            } else {
                assert(args.take(k + 1) =~= prev.take(k + 1));
                assert(prev[k] == args[k]);
                lemma_args_bottom(prev, k + 1);
                assert(image.subrange(at, at + args[k].len()) =~= before.subrange(
                    at,
                    at + args[k].len(),
                ));
            }
        }
    }
}

/// The layout of the stack on entry, where the strings and the words
/// fit: the stack pointer lies below the stack top at a word boundary;
/// from it upwards lie the words, each with its lowest byte first; each
/// string lies at the address that the argument vector holds for it, with
/// a zero byte behind it; and below the stack pointer the stack holds
/// zeros.
pub proof fn lemma_stack_layout(args: Seq<Seq<u8>>, entry: u64)
    requires
        args.len() >= 1,
        stack_fits(args),
    ensures
        ({
            let image = stack_image(args, entry);
            let sp = initial_sp(args) - USER_STACK_BASE;
            let words = stack_words(arg_addrs(args), entry);
            &&& image.len() == DEFAULT_USER_STACK_SIZE
            &&& USER_STACK_BASE <= initial_sp(args) < DEFAULT_USER_STACK_TOP
            &&& initial_sp(args) % 8 == 0
            &&& words.len() == word_count(args.len())
            &&& words[0] == args.len()
            &&& forall|i: int|
                0 <= i < words.len() ==> #[trigger] image.subrange(sp + 8 * i, sp + 8 * i + 8)
                    == spec_u64_to_le_bytes(words[i])
            &&& forall|k: int|
                0 <= k < args.len() ==> {
                    let at = (#[trigger] arg_addrs(args)[k]) - USER_STACK_BASE;
                    &&& words[1 + k] == arg_addrs(args)[k]
                    &&& image.subrange(at, at + args[k].len()) == args[k]
                    &&& image[at + args[k].len()] == 0
                }
            &&& forall|i: int| 0 <= i < sp ==> image[i] == 0
        }),
{
    let image = stack_image(args, entry);
    let strings = args_image(args);
    let sp = initial_sp(args) - USER_STACK_BASE;
    let words = stack_words(arg_addrs(args), entry);
    let bytes = words_bytes(words);
    lemma_args_bottom(args, 0);
    lemma_args_image(args);
    lemma_words_bytes_len(words);
    assert(words.len() == args.len() + 20);
    assert(sp + bytes.len() == args_bottom(args) - USER_STACK_BASE);
    assert forall|i: int| 0 <= i < words.len() implies #[trigger] image.subrange(
        sp + 8 * i,
        sp + 8 * i + 8,
    ) == spec_u64_to_le_bytes(words[i]) by {
        lemma_words_bytes_at(words, i);
        assert(image.subrange(sp + 8 * i, sp + 8 * i + 8) =~= bytes.subrange(8 * i, 8 * i + 8));
    }
    assert forall|k: int| 0 <= k < args.len() implies {
        let at = (#[trigger] arg_addrs(args)[k]) - USER_STACK_BASE;
        &&& words[1 + k] == arg_addrs(args)[k]
        &&& image.subrange(at, at + args[k].len()) == args[k]
        &&& image[at + args[k].len()] == 0
    } by {
        let at = args_bottom(args.take(k + 1)) - USER_STACK_BASE;
        lemma_args_bottom(args, k + 1);
        assert(USER_STACK_BASE <= args_bottom(args.take(k + 1)) <= DEFAULT_USER_STACK_TOP);
        assert(arg_addrs(args)[k] == args_bottom(args.take(k + 1)));
        assert(image.subrange(at, at + args[k].len()) =~= strings.subrange(
            at,
            at + args[k].len(),
        ));
    }
}

/// The bytes of each of `args`.
pub open spec fn byte_seqs(args: Seq<Vec<u8>>) -> Seq<Seq<u8>> {
    Seq::new(args.len(), |i: int| args[i]@)
}

/// Lays out the initial stack for the argument strings `args` and a
/// program that starts at `entry`: the bytes of the stack, from
/// [`USER_STACK_BASE`] up to the stack top, and the stack pointer, which
/// lies below the stack top at a word boundary.
pub fn build_stack(args: &Vec<Vec<u8>>, entry: u64) -> (r: Result<(Vec<u8>, u64), StackError>)
    ensures
        match r {
            Ok((image, sp)) => {
                &&& args@.len() >= 1
                &&& stack_fits(byte_seqs(args@))
                &&& image@ == stack_image(byte_seqs(args@), entry)
                &&& image@.len() == DEFAULT_USER_STACK_SIZE
                &&& sp == initial_sp(byte_seqs(args@))
                &&& USER_STACK_BASE <= sp < DEFAULT_USER_STACK_TOP
                &&& sp % ALIGN_SIZE == 0
            },
            Err(e) => {
                &&& e == StackError::NoArguments <==> args@.len() == 0
                &&& e == StackError::TooLong <==> args@.len() >= 1 && !stack_fits(byte_seqs(args@))
            },
        },
{
    let ghost all = byte_seqs(args@);
    if args.len() == 0 {
        return Err(StackError::NoArguments);
    }
    let mut image: Vec<u8> = vec![0u8; 0x8000];
    let mut sp: u64 = DEFAULT_USER_STACK_TOP;
    let mut argv: Vec<u64> = Vec::new();
    let mut i: usize = 0;
    proof {
        assert(all.take(0) =~= Seq::<Seq<u8>>::empty());
        assert(image@ =~= zeros(DEFAULT_USER_STACK_SIZE as nat));
    }
    while i < args.len()
        invariant
            all == byte_seqs(args@),
            i <= args@.len(),
            sp == args_bottom(all.take(i as int)),
            USER_STACK_BASE <= sp <= DEFAULT_USER_STACK_TOP,
            sp % 8 == 0,
            sp + 8 * i <= DEFAULT_USER_STACK_TOP,
            image@ == args_image(all.take(i as int)),
            image@.len() == DEFAULT_USER_STACK_SIZE,
            argv@.len() == i,
            forall|k: int| 0 <= k < i ==> argv@[k] == args_bottom(all.take(k + 1)) as u64,
        decreases args@.len() - i,
    {
        let arg = &args[i];
        let len = arg.len() as u64;
        proof {
            assert(all.take(i + 1).drop_last() =~= all.take(i as int));
            assert(all.take(i + 1).last() == arg@);
            assert(all[i as int] == arg@);
        }
        if len >= sp - USER_STACK_BASE {
            proof {
                lemma_args_bottom(all, i + 1);
            }
            return Err(StackError::TooLong);
        }
        sp = (sp - len - 1) / ALIGN_SIZE * ALIGN_SIZE;
        overlay_into(&mut image, (sp - USER_STACK_BASE) as usize, arg.as_slice());
        argv.push(sp);
        i = i + 1;
    }
    proof {
        assert(all.take(i as int) =~= all);
        lemma_args_bottom(all, 0);
    }
    let count = (args.len() as u64) + 20;
    if (sp - USER_STACK_BASE) / 8 < count {
        return Err(StackError::TooLong);
    }
    let bottom = sp;
    sp = sp - 8 * count;
    let mut words: Vec<u64> = Vec::new();
    words.push(args.len() as u64);
    let mut k: usize = 0;
    while k < argv.len()
        invariant
            k <= argv@.len(),
            argv@.len() == args@.len(),
            words@ == seq![args@.len() as u64] + argv@.subrange(0, k as int),
        decreases argv@.len() - k,
    {
        words.push(argv[k]);
        k = k + 1;
        assert(words@ =~= seq![args@.len() as u64] + argv@.subrange(0, k as int));
    }
    words.push(0);
    words.push(0);
    words.push(AuxV::EXECFN.tag());
    words.push(argv[0]);
    words.push(AuxV::EGID.tag());
    words.push(0);
    words.push(AuxV::GID.tag());
    words.push(0);
    words.push(AuxV::EUID.tag());
    words.push(0);
    words.push(AuxV::UID.tag());
    words.push(0);
    words.push(AuxV::ENTRY.tag());
    words.push(entry);
    words.push(AuxV::PAGESZ.tag());
    words.push(4096);
    words.push(AuxV::NULL.tag());
    words.push(0);
    words.push(0);
    proof {
        assert(argv@ =~= arg_addrs(all));
        assert(argv@.subrange(0, k as int) =~= argv@);
        assert(words@ =~= stack_words(arg_addrs(all), entry));
    }
    let ghost strings = image@;
    let base: usize = (sp - USER_STACK_BASE) as usize;
    let mut w: usize = 0;
    proof {
        lemma_overlay_empty(strings, base as int);
        assert(words@.subrange(0, 0) =~= Seq::<u64>::empty());
    }
    while w < words.len()
        invariant
            w <= words@.len(),
            words@.len() == count,
            count <= 0x1000,
            base + 8 * count <= DEFAULT_USER_STACK_SIZE,
            image@.len() == DEFAULT_USER_STACK_SIZE,
            image@ == overlay(strings, base as int, words_bytes(words@.subrange(0, w as int))),
        decreases words@.len() - w,
    {
        let bytes = u64_to_le_bytes(words[w]);
        proof {
            vstd::bytes::lemma_auto_spec_u64_to_from_le_bytes();
            lemma_words_bytes_len(words@.subrange(0, w as int));
            assert(words@.subrange(0, w + 1).drop_last() =~= words@.subrange(0, w as int));
            assert(words@.subrange(0, w + 1).last() == words@[w as int]);
            lemma_overlay_append(
                strings,
                base as int,
                words_bytes(words@.subrange(0, w as int)),
                bytes@,
            );
        }
        overlay_into(&mut image, base + 8 * w, bytes.as_slice());
        w = w + 1;
    }
    proof {
        assert(words@.subrange(0, w as int) =~= words@);
    }
    Ok((image, sp))
}

} // verus!
