//! The 1280-word constant table, the keyed string hash built on it, and the
//! word-wise stream cipher that protects the two directory tables.

use vstd::prelude::*;

use crate::bytes::{
    le_bytes, le_u32, lemma_le_bytes_read_back, lemma_le_u32_write_back, push_u32_le, u32_le_at,
};
use crate::error::MpqError;

verus! {

/// Number of 32-bit words in the constant table.
pub const CRYPT_TABLE_LEN: usize = 1280;

/// First value of the seed sequence from which the table is generated.
pub const CRYPT_SEED: u32 = 0x0010_0001;

/// Modulus of the seed sequence.
pub const CRYPT_MODULUS: u32 = 0x002A_AAAB;

/// One step of the seed sequence.
pub open spec fn next_seed(seed: int) -> int {
    (seed * 125 + 3) % (CRYPT_MODULUS as int)
}

/// The `n`-th value of the seed sequence, counted from the initial seed.
pub open spec fn seed_at(n: nat) -> int
    decreases n,
{
    if n == 0 {
        CRYPT_SEED as int
    } else {
        next_seed(seed_at((n - 1) as nat))
    }
}

/// Position of table index `index` in generation order: the table is filled
/// column by column, 256 rows of 5 words that lie 256 places apart.
pub open spec fn generation_rank(index: int) -> int {
    (index % 256) * 5 + index / 256
}

/// The table word at `index`: the low 16 bits of two consecutive seeds, the
/// earlier one in the high half.
#[verifier::opaque]
pub open spec fn crypt_word(index: int) -> u32 {
    let k = generation_rank(index);
    let hi = seed_at((2 * k + 1) as nat) % 0x1_0000;
    let lo = seed_at((2 * k + 2) as nat) % 0x1_0000;
    (hi * 0x1_0000 + lo) as u32
}

/// The whole constant table.
pub open spec fn crypt_table() -> Seq<u32> {
    Seq::new(CRYPT_TABLE_LEN as nat, |i: int| crypt_word(i))
}

proof fn lemma_seed_range(n: nat)
    ensures
        0 <= seed_at(n) < 0x002A_AAAB,
    decreases n,
{
    if n > 0 {
        lemma_seed_range((n - 1) as nat);
    }
}

/// The constant table, held in memory. A value of this type always holds
/// exactly the words of `crypt_table()`.
pub struct CryptTable {
    words: Vec<u32>,
}

impl View for CryptTable {
    type V = Seq<u32>;

    closed spec fn view(&self) -> Seq<u32> {
        self.words@
    }
}

impl CryptTable {
    #[verifier::type_invariant]
    spec fn holds_table(&self) -> bool {
        self.words@ == crypt_table()
    }

    /// Generates the table with the seeding procedure.
    pub fn new() -> (table: CryptTable)
        ensures
            table@ == crypt_table(),
    {
        let mut words: Vec<u32> = Vec::new();
        let mut n: usize = 0;
        while n < CRYPT_TABLE_LEN
            invariant
                n <= CRYPT_TABLE_LEN,
                words@.len() == n,
            decreases CRYPT_TABLE_LEN - n,
        {
            words.push(0u32);
            n = n + 1;
        }
        let mut seed: u32 = CRYPT_SEED;
        let mut row: usize = 0;
        while row < 256
            invariant
                row <= 256,
                words@.len() == 1280,
                seed as int == seed_at((10 * row) as nat),
                forall|j: int|
                    0 <= j < 1280 && j % 256 < row ==> #[trigger] words@[j] == crypt_word(j),
            decreases 256 - row,
        {
            let mut col: usize = 0;
            while col < 5
                invariant
                    row < 256,
                    col <= 5,
                    words@.len() == 1280,
                    seed as int == seed_at((10 * row + 2 * col) as nat),
                    forall|j: int|
                        0 <= j < 1280 && (j % 256 < row || (j % 256 == row && j / 256 < col))
                            ==> #[trigger] words@[j] == crypt_word(j),
                decreases 5 - col,
            {
                proof {
                    lemma_seed_range((10 * row + 2 * col) as nat);
                    lemma_seed_range((10 * row + 2 * col + 1) as nat);
                    lemma_seed_range((10 * row + 2 * col + 2) as nat);
                }
                let first: u32 = (seed * 125 + 3) % CRYPT_MODULUS;
                let second: u32 = (first * 125 + 3) % CRYPT_MODULUS;
                let word: u32 = (first % 0x1_0000) * 0x1_0000 + second % 0x1_0000;
                let index: usize = row + 256 * col;
                assert(index % 256 == row && index / 256 == col);
                assert(generation_rank(index as int) == 5 * row + col);
                proof {
                    reveal(crypt_word);
                }
                words.set(index, word);
                seed = second;
                col = col + 1;
            }
            row = row + 1;
        }
        proof {
            assert(words@ =~= crypt_table());
        }
        CryptTable { words }
    }

    /// The table word at `index`.
    pub fn word(&self, index: usize) -> (w: u32)
        requires
            index < CRYPT_TABLE_LEN,
        ensures
            w == crypt_word(index as int),
            self@ == crypt_table(),
    {
        proof {
            use_type_invariant(self);
        }
        self.words[index]
    }
}

/// The four uses of the string hash. Each selects its own 256-word block of
/// the table.
#[derive(Clone, Copy, Debug)]
pub enum StringHashType {
    TableOffset,
    HashA,
    HashB,
    Table,
}

impl StringHashType {
    /// Number of the table block that this hash reads: 0, 1, 2 or 3.
    pub open spec fn block(self) -> int {
        match self {
            StringHashType::TableOffset => 0,
            StringHashType::HashA => 1,
            StringHashType::HashB => 2,
            StringHashType::Table => 3,
        }
    }

    /// Number of the table block that this hash reads.
    pub fn number(self) -> (n: u32)
        ensures
            n as int == self.block(),
    {
        match self {
            StringHashType::TableOffset => 0,
            StringHashType::HashA => 1,
            StringHashType::HashB => 2,
            StringHashType::Table => 3,
        }
    }
}

/// Sum of two words, wrapping at 32 bits.
pub open spec fn wrap_sum(a: u32, b: u32) -> u32 {
    vstd::wrapping::u32_specs::wrapping_add(a, b)
}

/// Byte normalisation of the hash: an ASCII lower-case letter becomes its
/// upper-case form, every other byte stays.
pub open spec fn normalize(ch: u8) -> u8 {
    if 0x61 <= ch <= 0x7a {
        (ch - 0x20) as u8
    } else {
        ch
    }
}

/// ASCII lower-case form of a byte.
pub open spec fn ascii_lower(ch: u8) -> u8 {
    if 0x41 <= ch <= 0x5a {
        (ch + 0x20) as u8
    } else {
        ch
    }
}

/// ASCII upper-case form of a byte: the same map as `normalize`.
pub open spec fn ascii_upper(ch: u8) -> u8 {
    normalize(ch)
}

/// The two running words of the hash.
pub struct HashState {
    pub seed1: u32,
    pub seed2: u32,
}

/// State of the hash before any byte.
pub open spec fn hash_start() -> HashState {
    HashState { seed1: 0x7FED_7FED, seed2: 0xEEEE_EEEE }
}

/// State of the hash after one more byte `raw`, for the hash that reads
/// table block `block`.
pub open spec fn hash_step(block: int, state: HashState, raw: u8) -> HashState {
    let ch = normalize(raw) as u32;
    let seed1 = crypt_word(block * 256 + ch) ^ wrap_sum(state.seed1, state.seed2);
    let seed2 = wrap_sum(
        wrap_sum(wrap_sum(wrap_sum(ch, seed1), state.seed2), state.seed2 << 5u32),
        3u32,
    );
    HashState { seed1, seed2 }
}

/// State of the hash after all bytes of `string`, taken in order.
pub open spec fn hash_state(block: int, string: Seq<u8>) -> HashState
    decreases string.len(),
{
    if string.len() == 0 {
        hash_start()
    } else {
        hash_step(block, hash_state(block, string.drop_last()), string.last())
    }
}

/// The hash of `string` for the use `hash_type`: a function of the bytes
/// and the use alone.
pub open spec fn string_hash_spec(string: Seq<u8>, hash_type: StringHashType) -> u32 {
    hash_state(hash_type.block(), string).seed1
}

/// Normalises one byte of a hashed string and widens it to a word.
pub fn string_hash_normalize(ch: u8) -> (out: u32)
    ensures
        out == normalize(ch) as u32,
        out < 256,
{
    if 0x61 <= ch && ch <= 0x7a {
        (ch - 0x61 + 0x41) as u32
    } else {
        ch as u32
    }
}

/// Hashes `string` for the use `hash_type`.
pub fn string_hash(table: &CryptTable, string: &[u8], hash_type: StringHashType) -> (hash: u32)
    ensures
        hash == string_hash_spec(string@, hash_type),
{
    let block: u32 = hash_type.number();
    let mut seed1: u32 = 0x7FED_7FED;
    let mut seed2: u32 = 0xEEEE_EEEE;
    let mut i: usize = 0;
    while i < string.len()
        invariant
            i <= string@.len(),
            block as int == hash_type.block(),
            (HashState { seed1, seed2 }) == hash_state(block as int, string@.take(i as int)),
        decreases string@.len() - i,
    {
        let ch: u32 = string_hash_normalize(string[i]);
        let index: usize = (block * 256 + ch) as usize;
        proof {
            let next = string@.take(i + 1);
            assert(next.drop_last() =~= string@.take(i as int));
            assert(next.last() == string@[i as int]);
        }
        seed1 = table.word(index) ^ seed1.wrapping_add(seed2);
        seed2 = ch.wrapping_add(seed1).wrapping_add(seed2).wrapping_add(seed2 << 5u32).wrapping_add(3);
        i = i + 1;
    }
    proof {
        assert(string@.take(i as int) =~= string@);
    }
    seed1
}

/// The hash does not tell an ASCII letter from its other case: the
/// lower-case and the upper-case form of a string hash alike, whatever the
/// use.
pub proof fn lemma_hash_ignores_ascii_case(string: Seq<u8>, hash_type: StringHashType)
    ensures
        string_hash_spec(string.map_values(|b: u8| ascii_lower(b)), hash_type)
            == string_hash_spec(string.map_values(|b: u8| ascii_upper(b)), hash_type),
        string_hash_spec(string.map_values(|b: u8| ascii_upper(b)), hash_type)
            == string_hash_spec(string, hash_type),
{
    lemma_hash_state_ignores_case(hash_type.block(), string);
}

proof fn lemma_hash_state_ignores_case(block: int, string: Seq<u8>)
    ensures
        hash_state(block, string.map_values(|b: u8| ascii_lower(b))) == hash_state(block, string),
        hash_state(block, string.map_values(|b: u8| ascii_upper(b))) == hash_state(block, string),
    decreases string.len(),
{
    let lower = string.map_values(|b: u8| ascii_lower(b));
    let upper = string.map_values(|b: u8| ascii_upper(b));
    if string.len() > 0 {
        lemma_hash_state_ignores_case(block, string.drop_last());
        assert(lower.drop_last() =~= string.drop_last().map_values(|b: u8| ascii_lower(b)));
        assert(upper.drop_last() =~= string.drop_last().map_values(|b: u8| ascii_upper(b)));
        assert(normalize(lower.last()) == normalize(string.last()));
        assert(normalize(upper.last()) == normalize(string.last()));
    }
}

/// The two running words of the stream cipher.
pub struct CipherState {
    pub seed1: u32,
    pub seed2: u32,
}

/// State of the cipher under `key` before any word.
pub open spec fn cipher_start(key: u32) -> CipherState {
    CipherState { seed1: key, seed2: 0xEEEE_EEEE }
}

/// The second running word once the table word chosen by the low byte of
/// the first has been added to it.
pub open spec fn cipher_mixed(state: CipherState) -> u32 {
    wrap_sum(state.seed2, crypt_word(0x400 + (state.seed1 & 0xFF)))
}

/// The word that is XOR-ed onto the next word of the stream.
#[verifier::opaque]
pub open spec fn cipher_mask(state: CipherState) -> u32 {
    wrap_sum(state.seed1, cipher_mixed(state))
}

/// State of the cipher after a word whose plain text is `plain`.
#[verifier::opaque]
pub open spec fn cipher_step(state: CipherState, plain: u32) -> CipherState {
    let mixed = cipher_mixed(state);
    CipherState {
        seed1: wrap_sum((state.seed1 ^ 0xFFFF_FFFF) << 0x15u32, 0x1111_1111) | (state.seed1
            >> 0x0Bu32),
        seed2: wrap_sum(wrap_sum(wrap_sum(plain, mixed), mixed << 5u32), 3u32),
    }
}

/// The cipher run over the first `n` words of `input`: the state reached
/// and the `n` words produced. Each word is XOR-ed with the mask of the
/// state before it; the state then advances by the word's plain text, which
/// is the word produced when decrypting and the word taken when encrypting.
pub open spec fn cipher_run(key: u32, input: Seq<u32>, n: nat, decrypting: bool) -> (
    CipherState,
    Seq<u32>,
)
    decreases n,
{
    if n == 0 {
        (cipher_start(key), Seq::empty())
    } else {
        let (state, output) = cipher_run(key, input, (n - 1) as nat, decrypting);
        let word = input[n - 1] ^ cipher_mask(state);
        let plain = if decrypting {
            word
        } else {
            input[n - 1]
        };
        (cipher_step(state, plain), output.push(word))
    }
}

/// The little-endian words of a buffer; bytes after the last whole word do
/// not count.
pub open spec fn words_of(bytes: Seq<u8>) -> Seq<u32> {
    Seq::new(bytes.len() / 4, |i: int| le_u32(bytes.subrange(4 * i, 4 * i + 4)))
}

/// The bytes of a sequence of words, each word low byte first.
pub open spec fn bytes_of(words: Seq<u32>) -> Seq<u8> {
    Seq::new(4 * words.len(), |j: int| le_bytes(words[j / 4])[j % 4])
}

/// The plain text of `buffer` under `key`.
pub open spec fn decrypt_spec(key: u32, buffer: Seq<u8>) -> Seq<u8> {
    bytes_of(cipher_run(key, words_of(buffer), buffer.len() / 4, true).1)
}

/// The cipher text of `buffer` under `key`.
pub open spec fn encrypt_spec(key: u32, buffer: Seq<u8>) -> Seq<u8> {
    bytes_of(cipher_run(key, words_of(buffer), buffer.len() / 4, false).1)
}

proof fn lemma_cipher_run_len(key: u32, input: Seq<u32>, n: nat, decrypting: bool)
    ensures
        cipher_run(key, input, n, decrypting).1.len() == n,
    decreases n,
{
    if n > 0 {
        lemma_cipher_run_len(key, input, (n - 1) as nat, decrypting);
    }
}

proof fn lemma_cipher_run_prefix(key: u32, input: Seq<u32>, n: nat, m: nat, decrypting: bool)
    requires
        n <= m,
    ensures
        cipher_run(key, input, n, decrypting).1 =~= cipher_run(key, input, m, decrypting).1.take(
            n as int,
        ),
    decreases m,
{
    lemma_cipher_run_len(key, input, m, decrypting);
    lemma_cipher_run_len(key, input, n, decrypting);
    if n < m {
        lemma_cipher_run_prefix(key, input, n, (m - 1) as nat, decrypting);
        lemma_cipher_run_len(key, input, (m - 1) as nat, decrypting);
    }
}

proof fn lemma_bytes_of_push(words: Seq<u32>, word: u32)
    ensures
        bytes_of(words.push(word)) =~= bytes_of(words) + le_bytes(word),
{
    let left = bytes_of(words.push(word));
    let right = bytes_of(words) + le_bytes(word);
    assert(left.len() == right.len());
    assert forall|j: int| 0 <= j < left.len() implies left[j] == right[j] by {
        if j < 4 * words.len() {
            assert(j / 4 < words.len());
        } else {
            assert(j / 4 == words.len());
            assert(j % 4 == j - 4 * words.len());
        }
    }
}

proof fn lemma_words_of_bytes_of(words: Seq<u32>)
    ensures
        words_of(bytes_of(words)) =~= words,
{
    let bytes = bytes_of(words);
    assert forall|i: int| 0 <= i < words.len() implies words_of(bytes)[i] == words[i] by {
        let four = bytes.subrange(4 * i, 4 * i + 4);
        lemma_le_bytes_read_back(words[i]);
        assert forall|k: int| 0 <= k < 4 implies four[k] == le_bytes(words[i])[k] by {
            assert((4 * i + k) / 4 == i);
            assert((4 * i + k) % 4 == k);
        }
        assert(four =~= le_bytes(words[i]));
    }
}

proof fn lemma_bytes_of_words_of(bytes: Seq<u8>)
    requires
        bytes.len() % 4 == 0,
    ensures
        bytes_of(words_of(bytes)) =~= bytes,
{
    let back = bytes_of(words_of(bytes));
    assert forall|j: int| 0 <= j < bytes.len() implies back[j] == bytes[j] by {
        let i = j / 4;
        let four = bytes.subrange(4 * i, 4 * i + 4);
        lemma_le_u32_write_back(four);
        assert(le_bytes(le_u32(four))[j % 4] == four[j % 4]);
    }
}

proof fn lemma_xor_twice(word: u32, mask: u32)
    ensures
        (word ^ mask) ^ mask == word,
{
    assert((word ^ mask) ^ mask == word) by (bit_vector);
}

proof fn lemma_cipher_run_inverts(key: u32, input: Seq<u32>, n: nat, decrypting: bool)
    requires
        n <= input.len(),
    ensures
        cipher_run(
            key,
            cipher_run(key, input, input.len(), decrypting).1,
            n,
            !decrypting,
        ) == (cipher_run(key, input, n, decrypting).0, input.take(n as int)),
    decreases n,
{
    let there = cipher_run(key, input, input.len(), decrypting).1;
    if n == 0 {
        assert(input.take(0) =~= Seq::<u32>::empty());
    } else {
        let before = (n - 1) as nat;
        lemma_cipher_run_inverts(key, input, before, decrypting);
        lemma_cipher_run_prefix(key, input, n, input.len(), decrypting);
        lemma_cipher_run_len(key, input, before, decrypting);
        lemma_cipher_run_len(key, input, n, decrypting);
        lemma_cipher_run_len(key, input, input.len(), decrypting);
        let state = cipher_run(key, input, before, decrypting).0;
        assert(there[n - 1] == input[n - 1] ^ cipher_mask(state)) by {
            assert(there[n - 1] == cipher_run(key, input, n, decrypting).1[n - 1]);
        }
        lemma_xor_twice(input[n - 1], cipher_mask(state));
        assert(input.take(before as int).push(input[n - 1]) =~= input.take(n as int));
    }
}

/// The cipher keeps the length of a buffer of whole words.
pub proof fn lemma_cipher_keeps_length(key: u32, buffer: Seq<u8>)
    requires
        buffer.len() % 4 == 0,
    ensures
        decrypt_spec(key, buffer).len() == buffer.len(),
        encrypt_spec(key, buffer).len() == buffer.len(),
{
    lemma_cipher_run_len(key, words_of(buffer), buffer.len() / 4, true);
    lemma_cipher_run_len(key, words_of(buffer), buffer.len() / 4, false);
}

/// Decrypting under a key what was encrypted under it gives the buffer
/// back, for every buffer that is a whole number of 32-bit words.
pub proof fn lemma_decrypt_encrypt(key: u32, buffer: Seq<u8>)
    requires
        buffer.len() % 4 == 0,
    ensures
        decrypt_spec(key, encrypt_spec(key, buffer)) == buffer,
{
    let words = words_of(buffer);
    let cipher = cipher_run(key, words, words.len(), false).1;
    lemma_cipher_run_len(key, words, words.len(), false);
    lemma_words_of_bytes_of(cipher);
    lemma_cipher_run_inverts(key, words, words.len(), false);
    assert(words.take(words.len() as int) =~= words);
    lemma_bytes_of_words_of(buffer);
}

/// Encrypting under a key what was decrypted under it gives the buffer
/// back, for every buffer that is a whole number of 32-bit words.
pub proof fn lemma_encrypt_decrypt(key: u32, buffer: Seq<u8>)
    requires
        buffer.len() % 4 == 0,
    ensures
        encrypt_spec(key, decrypt_spec(key, buffer)) == buffer,
{
    let words = words_of(buffer);
    let plain = cipher_run(key, words, words.len(), true).1;
    lemma_cipher_run_len(key, words, words.len(), true);
    lemma_words_of_bytes_of(plain);
    lemma_cipher_run_inverts(key, words, words.len(), true);
    assert(words.take(words.len() as int) =~= words);
    lemma_bytes_of_words_of(buffer);
}

/// Runs the cipher over a buffer of whole words and gives the bytes
/// produced.
fn run_cipher(table: &CryptTable, key: u32, buf: &Vec<u8>, decrypting: bool) -> (out: Vec<u8>)
    requires
        buf@.len() % 4 == 0,
    ensures
        out@ == bytes_of(cipher_run(key, words_of(buf@), buf@.len() / 4, decrypting).1),
{
    let word_count: usize = buf.len() / 4;
    let mut seed1: u32 = key;
    let mut seed2: u32 = 0xEEEE_EEEE;
    let mut out: Vec<u8> = Vec::new();
    let mut i: usize = 0;
    while i < word_count
        invariant
            i <= word_count,
            word_count == buf.len() / 4,
            buf.len() % 4 == 0,
            (CipherState { seed1, seed2 }) == cipher_run(
                key,
                words_of(buf@),
                i as nat,
                decrypting,
            ).0,
            out@ == bytes_of(cipher_run(key, words_of(buf@), i as nat, decrypting).1),
        decreases word_count - i,
    {
        let ghost state = CipherState { seed1, seed2 };
        let ghost done = cipher_run(key, words_of(buf@), i as nat, decrypting).1;
        assert(4 * i + 4 <= buf.len());
        let taken: u32 = u32_le_at(buf.as_slice(), 4 * i);
        assert(taken == words_of(buf@)[i as int]);
        let low: u32 = seed1 & 0xFF;
        assert(low < 256) by (bit_vector)
            requires
                low == seed1 & 0xFF,
        ;
        let mixed: u32 = seed2.wrapping_add(table.word(0x400 + low as usize));
        let word: u32 = taken ^ seed1.wrapping_add(mixed);
        let plain: u32 = if decrypting {
            word
        } else {
            taken
        };
        seed1 = ((seed1 ^ 0xFFFF_FFFF) << 0x15u32).wrapping_add(0x1111_1111) | (seed1 >> 0x0Bu32);
        seed2 = plain.wrapping_add(mixed).wrapping_add(mixed << 5u32).wrapping_add(3);
        push_u32_le(&mut out, word);
        proof {
            reveal(cipher_mask);
            reveal(cipher_step);
            lemma_bytes_of_push(done, word);
            assert(cipher_run(key, words_of(buf@), (i + 1) as nat, decrypting) == (
                cipher_step(state, plain),
                done.push(word),
            ));
        }
        i = i + 1;
    }
    out
}

/// Decrypts `buf` in place under `key`. A buffer that is not a whole number
/// of 32-bit words is refused and left as it was.
pub fn decrypt(table: &CryptTable, key: u32, buf: &mut Vec<u8>) -> (out: Result<(), MpqError>)
    ensures
        old(buf)@.len() % 4 == 0 ==> out is Ok && final(buf)@ == decrypt_spec(key, old(buf)@),
        old(buf)@.len() % 4 != 0 ==> out == Err::<(), MpqError>(MpqError::MisalignedCipherBuffer)
            && final(buf)@ == old(buf)@,
{
    if buf.len() % 4 != 0 {
        return Err(MpqError::MisalignedCipherBuffer);
    }
    let plain = run_cipher(table, key, buf, true);
    *buf = plain;
    Ok(())
}

/// Encrypts `buf` in place under `key`: the inverse of `decrypt`. A buffer
/// that is not a whole number of 32-bit words is refused and left as it was.
pub fn encrypt(table: &CryptTable, key: u32, buf: &mut Vec<u8>) -> (out: Result<(), MpqError>)
    ensures
        old(buf)@.len() % 4 == 0 ==> out is Ok && final(buf)@ == encrypt_spec(key, old(buf)@),
        old(buf)@.len() % 4 != 0 ==> out == Err::<(), MpqError>(MpqError::MisalignedCipherBuffer)
            && final(buf)@ == old(buf)@,
{
    if buf.len() % 4 != 0 {
        return Err(MpqError::MisalignedCipherBuffer);
    }
    let cipher = run_cipher(table, key, buf, false);
    *buf = cipher;
    Ok(())
}

} // verus!
