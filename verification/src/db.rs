//! The records kept of each chain, and the files that hold them.

use crate::chain::Chain;
use crate::text::decimal_text;
use vstd::prelude::*;
use vstd::string::StringExecFns;

verus! {

/// A block, as far as the figures need it.
#[derive(Debug, PartialEq, Eq)]
pub struct Block {
    pub chain: Chain,
    pub block_number: u64,
    /// The number of the previous block. It is not always one less: where the
    /// "block" number is really a slot number, slots may be empty.
    pub prev_block_number: Option<u64>,
    /// Seconds since the Unix epoch.
    pub timestamp: u64,
    pub num_txs: u64,
    pub hash: String,
    pub parent_hash: String,
}

/// Summed data for a contiguous run of blocks.
#[derive(Debug, PartialEq, Eq)]
pub struct BlockRun {
    pub newest_block_number: u64,
    pub newest_block_hash: String,
    pub newest_block_timestamp: u64,
    pub oldest_block_timestamp: u64,
    pub prev_block: Option<PreviousBlock>,
    pub num_blocks: u64,
    pub num_txs: u64,
}

/// The block before the oldest one of a run.
#[derive(Debug, PartialEq, Eq)]
pub struct PreviousBlock {
    pub prev_block_number: u64,
    pub prev_block_hash: String,
}

/// The runs of a chain, the newest first.
#[derive(Debug, PartialEq, Eq)]
pub struct BlockRunSummary {
    pub block_runs: Vec<BlockRun>,
}

/// The view of a block.
#[verifier::ext_equal]
pub struct BlockView {
    pub chain: Seq<char>,
    pub block_number: u64,
    pub prev_block_number: Option<u64>,
    pub timestamp: u64,
    pub num_txs: u64,
    pub hash: Seq<char>,
    pub parent_hash: Seq<char>,
}

/// The view of the block before a run.
#[verifier::ext_equal]
pub struct PreviousBlockView {
    pub prev_block_number: u64,
    pub prev_block_hash: Seq<char>,
}

/// The view of a run of blocks.
#[verifier::ext_equal]
pub struct BlockRunView {
    pub newest_block_number: u64,
    pub newest_block_hash: Seq<char>,
    pub newest_block_timestamp: u64,
    pub oldest_block_timestamp: u64,
    pub prev_block: Option<PreviousBlockView>,
    pub num_blocks: u64,
    pub num_txs: u64,
}

impl View for Block {
    type V = BlockView;

    open spec fn view(&self) -> BlockView {
        BlockView {
            chain: self.chain@,
            block_number: self.block_number,
            prev_block_number: self.prev_block_number,
            timestamp: self.timestamp,
            num_txs: self.num_txs,
            hash: self.hash@,
            parent_hash: self.parent_hash@,
        }
    }
}

impl View for PreviousBlock {
    type V = PreviousBlockView;

    open spec fn view(&self) -> PreviousBlockView {
        PreviousBlockView {
            prev_block_number: self.prev_block_number,
            prev_block_hash: self.prev_block_hash@,
        }
    }
}

impl View for BlockRun {
    type V = BlockRunView;

    open spec fn view(&self) -> BlockRunView {
        BlockRunView {
            newest_block_number: self.newest_block_number,
            newest_block_hash: self.newest_block_hash@,
            newest_block_timestamp: self.newest_block_timestamp,
            oldest_block_timestamp: self.oldest_block_timestamp,
            prev_block: match self.prev_block {
                Some(prev) => Some(prev@),
                None => None,
            },
            num_blocks: self.num_blocks,
            num_txs: self.num_txs,
        }
    }
}

/// The views of blocks, in order.
pub open spec fn block_views(blocks: Seq<Block>) -> Seq<BlockView> {
    blocks.map_values(|block: Block| block@)
}

/// The views of runs, in order.
pub open spec fn run_views(runs: Seq<BlockRun>) -> Seq<BlockRunView> {
    runs.map_values(|run: BlockRun| run@)
}

impl View for BlockRunSummary {
    type V = Seq<BlockRunView>;

    open spec fn view(&self) -> Seq<BlockRunView> {
        run_views(self.block_runs@)
    }
}

impl Clone for PreviousBlock {
    fn clone(&self) -> (prev: Self)
        ensures
            prev@ == self@,
    {
        PreviousBlock {
            prev_block_number: self.prev_block_number,
            prev_block_hash: self.prev_block_hash.clone(),
        }
    }
}

impl Clone for BlockRun {
    fn clone(&self) -> (run: Self)
        ensures
            run@ == self@,
    {
        BlockRun {
            newest_block_number: self.newest_block_number,
            newest_block_hash: self.newest_block_hash.clone(),
            newest_block_timestamp: self.newest_block_timestamp,
            oldest_block_timestamp: self.oldest_block_timestamp,
            prev_block: match &self.prev_block {
                Some(prev) => Some(prev.clone()),
                None => None,
            },
            num_blocks: self.num_blocks,
            num_txs: self.num_txs,
        }
    }
}

/// The store of records: one JSON file for each record, in one directory for
/// each chain.
#[derive(Debug, Clone, Copy)]
pub struct JsonDb;

/// The directory that holds all of the store.
pub const JSON_DB_DIR: &'static str = "db";

/// The file name of the highest known block number.
pub const HIGHEST_BLOCK_NUMBER: &'static str = "highest_block_number";

/// The file name of the transaction rate.
pub const TRANSACTIONS_PER_SECOND: &'static str = "tps";

/// The file name of the block runs.
pub const BLOCK_RUN_SUMMARY: &'static str = "block_runs";

/// The records of one chain.
pub enum Record {
    Block(u64),
    HighestBlockNumber,
    Tps,
    BlockRuns,
}

/// A record's file name.
pub open spec fn record_key(record: Record) -> Seq<char> {
    match record {
        Record::Block(number) => crate::text::decimal(number as nat),
        Record::HighestBlockNumber => "highest_block_number"@,
        Record::Tps => "tps"@,
        Record::BlockRuns => "block_runs"@,
    }
}

/// The path of a directory of the store.
pub open spec fn dir_path(dir: Seq<char>) -> Seq<char> {
    "db"@ + "/"@ + dir
}

/// The path of a file of the store.
pub open spec fn file_path(dir: Seq<char>, key: Seq<char>) -> Seq<char> {
    dir_path(dir) + "/"@ + key
}

/// The path that a file is written under before it is complete.
pub open spec fn temp_path(path: Seq<char>, suffix: u32) -> Seq<char> {
    path + "."@ + crate::text::decimal(suffix as nat) + ".temp"@
}

/// The path of a chain's record.
pub open spec fn record_path(chain: Seq<char>, record: Record) -> Seq<char> {
    file_path(chain, record_key(record))
}

/// A write of one file: the data, and the paths that it goes through.
pub struct DbWrite<T> {
    /// The directory, which is made if it is not there.
    pub file_dir: String,
    /// Where the data ends up.
    pub file_path: String,
    /// Where the data is written first.
    pub temp_file_path: String,
    pub data: T,
}

impl<T> DbWrite<T> {
    /// The write of `data` to the file `key` of the directory `dir`, with `suffix`
    /// in the temporary name.
    pub open spec fn writes(self, dir: Seq<char>, key: Seq<char>, data: T, suffix: u32) -> bool {
        &&& self.file_dir@ == dir_path(dir)
        &&& self.file_path@ == file_path(dir, key)
        &&& self.temp_file_path@ == temp_path(file_path(dir, key), suffix)
        &&& self.data == data
    }

    /// The write of `data` to the file `key` of the directory `dir`, under some
    /// temporary name.
    pub open spec fn stores(self, dir: Seq<char>, key: Seq<char>, data: T) -> bool {
        exists|suffix: u32| #[trigger] self.writes(dir, key, data, suffix)
    }
}

/// What a write does next.
pub enum WriteStep<E> {
    /// Make the directory, and those above it.
    CreateDir,
    /// Create the file under its temporary path.
    CreateTemp,
    /// Write the data, as JSON, to the temporary file.
    Serialize,
    /// Move the temporary file to its final path.
    Rename,
    /// Remove the temporary file: the data could not be written, for the reason given.
    Remove(E),
    /// Nothing: this is the outcome.
    Finished(Result<(), E>),
}

/// The step that follows one with the given outcome.
pub open spec fn write_step_after<E>(step: WriteStep<E>, outcome: Result<(), E>) -> WriteStep<E> {
    match (step, outcome) {
        (WriteStep::Finished(result), _) => WriteStep::Finished(result),
        (WriteStep::Serialize, Err(e)) => WriteStep::Remove(e),
        (_, Err(e)) => WriteStep::Finished(Err(e)),
        (WriteStep::CreateDir, Ok(_)) => WriteStep::CreateTemp,
        (WriteStep::CreateTemp, Ok(_)) => WriteStep::Serialize,
        (WriteStep::Serialize, Ok(_)) => WriteStep::Rename,
        (WriteStep::Rename, Ok(_)) => WriteStep::Finished(Ok(())),
        (WriteStep::Remove(e), Ok(_)) => WriteStep::Finished(Err(e)),
    }
}

/// The step of a write that follows one with the given outcome. Where the data
/// cannot be written the temporary file is removed and the write fails with that
/// reason, or with that of the removal where the removal fails; any other failure
/// ends the write at once.
pub fn next_write_step<E>(step: WriteStep<E>, outcome: Result<(), E>) -> (next: WriteStep<E>)
    ensures
        next == write_step_after(step, outcome),
{
    match (step, outcome) {
        (WriteStep::Finished(result), _) => WriteStep::Finished(result),
        (WriteStep::Serialize, Err(e)) => WriteStep::Remove(e),
        (_, Err(e)) => WriteStep::Finished(Err(e)),
        (WriteStep::CreateDir, Ok(_)) => WriteStep::CreateTemp,
        (WriteStep::CreateTemp, Ok(_)) => WriteStep::Serialize,
        (WriteStep::Serialize, Ok(_)) => WriteStep::Rename,
        (WriteStep::Rename, Ok(_)) => WriteStep::Finished(Ok(())),
        (WriteStep::Remove(e), Ok(_)) => WriteStep::Finished(Err(e)),
    }
}

/// What came of opening and reading a file of the store.
pub enum ReadOutcome<T, E> {
    /// There is no such file.
    NotFound,
    /// The file could not be opened.
    Failed(E),
    /// The file was opened; its content was read as a value, or was not one.
    Opened(Result<T, E>),
}

/// What a read of the store returns: nothing for a file that is not there, and
/// an error for any other failure.
pub fn read_result<T, E>(outcome: ReadOutcome<T, E>) -> (result: Result<Option<T>, E>)
    ensures
        result == match outcome {
            ReadOutcome::NotFound => Ok::<Option<T>, E>(None),
            ReadOutcome::Failed(e) => Err::<Option<T>, E>(e),
            ReadOutcome::Opened(Ok(data)) => Ok::<Option<T>, E>(Some(data)),
            ReadOutcome::Opened(Err(e)) => Err::<Option<T>, E>(e),
        },
{
    match outcome {
        ReadOutcome::NotFound => Ok(None),
        ReadOutcome::Failed(e) => Err(e),
        ReadOutcome::Opened(Ok(data)) => Ok(Some(data)),
        ReadOutcome::Opened(Err(e)) => Err(e),
    }
}

/// A random number, from `rand::random::<u32>`. It differs from call to call, so
/// nothing is stated of it.
#[verifier::external_body]
fn random_suffix() -> (suffix: u32)
{
    rand::random::<u32>()
}

/// The path of the directory `dir` of the store.
fn dir_path_text(dir: &str) -> (path: String)
    ensures
        path@ == dir_path(dir@),
{
    JSON_DB_DIR.to_owned().concat("/").concat(dir)
}

/// The write of `data` to the file `path` of the directory `dir`, with `suffix` in
/// the name of the temporary file.
pub fn write_json_db_with<T>(dir: &str, path: &str, data: T, suffix: u32) -> (write: DbWrite<T>)
    ensures
        write.writes(dir@, path@, data, suffix),
{
    let file_path = read_json_db(dir, path);
    let temp_file_path = file_path.clone().concat(".").concat(
        decimal_text(suffix as u64).as_str(),
    ).concat(".temp");
    DbWrite { file_dir: dir_path_text(dir), file_path, temp_file_path, data }
}

/// The write of `data` to the file `path` of the directory `dir`, under a temporary
/// name drawn at random.
pub fn write_json_db<T>(dir: &str, path: &str, data: T) -> (write: DbWrite<T>)
    ensures
        write.stores(dir@, path@, data),
{
    write_json_db_with(dir, path, data, random_suffix())
}

/// The path that the file `path` of the directory `dir` is read from.
pub fn read_json_db(dir: &str, path: &str) -> (file: String)
    ensures
        file@ == file_path(dir@, path@),
{
    dir_path_text(dir).concat("/").concat(path)
}

impl JsonDb {
    /// The write that stores a block.
    pub fn store_block(&self, block: Block) -> (write: DbWrite<Block>)
        ensures
            write.stores(block.chain@, record_key(Record::Block(block.block_number)), block),
    {
        let dir = block.chain.name().to_owned();
        let path = decimal_text(block.block_number);
        write_json_db(dir.as_str(), path.as_str(), block)
    }

    /// The path that a block is loaded from.
    pub fn load_block(&self, chain: &Chain, block_number: u64) -> (path: String)
        ensures
            path@ == record_path(chain@, Record::Block(block_number)),
    {
        read_json_db(chain.name(), decimal_text(block_number).as_str())
    }

    /// The write that stores the highest known block number.
    pub fn store_highest_block_number(&self, chain: &Chain, block_number: u64) -> (write: DbWrite<
        u64,
    >)
        ensures
            write.stores(chain@, record_key(Record::HighestBlockNumber), block_number),
    {
        write_json_db(chain.name(), HIGHEST_BLOCK_NUMBER, block_number)
    }

    /// The path that the highest known block number is loaded from.
    pub fn load_highest_block_number(&self, chain: &Chain) -> (path: String)
        ensures
            path@ == record_path(chain@, Record::HighestBlockNumber),
    {
        read_json_db(chain.name(), HIGHEST_BLOCK_NUMBER)
    }

    /// The write that stores the transaction rate.
    pub fn store_tps<T>(&self, chain: &Chain, tps: T) -> (write: DbWrite<T>)
        ensures
            write.stores(chain@, record_key(Record::Tps), tps),
    {
        write_json_db(chain.name(), TRANSACTIONS_PER_SECOND, tps)
    }

    /// The path that the transaction rate is loaded from.
    pub fn load_tps(&self, chain: &Chain) -> (path: String)
        ensures
            path@ == record_path(chain@, Record::Tps),
    {
        read_json_db(chain.name(), TRANSACTIONS_PER_SECOND)
    }

    /// The write that stores the block runs.
    pub fn store_block_run_summary(&self, chain: &Chain, summary: BlockRunSummary) -> (write:
        DbWrite<BlockRunSummary>)
        ensures
            write.stores(chain@, record_key(Record::BlockRuns), summary),
    {
        write_json_db(chain.name(), BLOCK_RUN_SUMMARY, summary)
    }

    /// The path that the block runs are loaded from.
    pub fn load_block_run_summary(&self, chain: &Chain) -> (path: String)
        ensures
            path@ == record_path(chain@, Record::BlockRuns),
    {
        read_json_db(chain.name(), BLOCK_RUN_SUMMARY)
    }
}

/// A path splits in one way at its last separator.
proof fn lemma_split_at_separator(a: Seq<char>, x: Seq<char>, b: Seq<char>, y: Seq<char>)
    requires
        a + "/"@ + x == b + "/"@ + y,
        !x.contains('/'),
        !y.contains('/'),
    ensures
        a == b,
        x == y,
{
    reveal_strlit("/");
    let s = a + "/"@ + x;
    let t = b + "/"@ + y;
    assert(s[a.len() as int] == '/');
    assert(t[b.len() as int] == '/');
    assert(s.len() == a.len() + 1 + x.len());
    assert(t.len() == b.len() + 1 + y.len());
    if a.len() < b.len() {
        assert(s[b.len() as int] == x[b.len() - a.len() - 1]);
        assert(x.contains('/'));
    }
    if b.len() < a.len() {
        assert(t[a.len() as int] == y[a.len() - b.len() - 1]);
        assert(y.contains('/'));
    }
    assert(a =~= s.take(a.len() as int));
    assert(b =~= t.take(b.len() as int));
    assert(x =~= s.skip(a.len() as int + 1));
    assert(y =~= t.skip(b.len() as int + 1));
}

/// File names of records hold neither a separator nor a dot.
proof fn lemma_record_key_plain(record: Record)
    ensures
        !record_key(record).contains('/'),
        !record_key(record).contains('.'),
{
    reveal_strlit("highest_block_number");
    reveal_strlit("tps");
    reveal_strlit("block_runs");
    if let Record::Block(number) = record {
        crate::text::lemma_decimal_digits(number as nat);
    }
}

/// A record's path is made of the store's directory, the chain's and the file's name,
/// each of them a plain name.
pub proof fn law_record_paths_are_plain(chain: Seq<char>, record: Record)
    requires
        crate::chain::is_chain_name(chain),
    ensures
        record_path(chain, record) == "db"@ + "/"@ + chain + "/"@ + record_key(record),
        crate::chain::is_plain_name("db"@),
        crate::chain::is_plain_name(chain),
        crate::chain::is_plain_name(record_key(record)),
{
    reveal_strlit("db");
    reveal_strlit("highest_block_number");
    reveal_strlit("tps");
    reveal_strlit("block_runs");
    lemma_record_key_plain(record);
    if let Record::Block(number) = record {
        crate::text::lemma_decimal_digits(number as nat);
    }
    let key = record_key(record);
    assert(key[0] != '.') by {
        assert(key.contains(key[0]));
    }
}

/// Two records have the same path exactly when they are the same record of the
/// same chain.
pub proof fn law_record_paths_distinct(c1: Seq<char>, r1: Record, c2: Seq<char>, r2: Record)
    requires
        crate::chain::is_chain_name(c1),
        crate::chain::is_chain_name(c2),
    ensures
        record_path(c1, r1) == record_path(c2, r2) <==> c1 == c2 && r1 == r2,
{
    if record_path(c1, r1) == record_path(c2, r2) {
        lemma_record_key_plain(r1);
        lemma_record_key_plain(r2);
        lemma_split_at_separator(dir_path(c1), record_key(r1), dir_path(c2), record_key(r2));
        lemma_split_at_separator("db"@, c1, "db"@, c2);
        reveal_strlit("highest_block_number");
        reveal_strlit("tps");
        reveal_strlit("block_runs");
        match (r1, r2) {
            (Record::Block(m), Record::Block(n)) => {
                crate::text::lemma_decimal_injective(m as nat, n as nat);
            },
            (Record::Block(m), _) => {
                crate::text::lemma_decimal_digits(m as nat);
                assert('0' <= record_key(r1)[0] <= '9');
            },
            (_, Record::Block(n)) => {
                crate::text::lemma_decimal_digits(n as nat);
                assert('0' <= record_key(r2)[0] <= '9');
            },
            (_, _) => {
                assert(record_key(r1).len() == record_key(r2).len());
            },
        }
    }
}

/// A store puts its data where a load looks exactly when both are of the same
/// record of the same chain.
pub proof fn law_load_reads_its_store<T>(
    write: DbWrite<T>,
    c1: Seq<char>,
    r1: Record,
    data: T,
    c2: Seq<char>,
    r2: Record,
)
    requires
        crate::chain::is_chain_name(c1),
        crate::chain::is_chain_name(c2),
        write.stores(c1, record_key(r1), data),
    ensures
        write.file_path@ == record_path(c2, r2) <==> c1 == c2 && r1 == r2,
        write.data == data,
{
    law_record_paths_distinct(c1, r1, c2, r2);
}

/// A temporary file is never a record, of any chain, and two temporary files are
/// the same only for the same record and the same suffix.
pub proof fn law_temporary_files_apart(
    c1: Seq<char>,
    r1: Record,
    s1: u32,
    c2: Seq<char>,
    r2: Record,
    s2: u32,
)
    requires
        crate::chain::is_chain_name(c1),
        crate::chain::is_chain_name(c2),
    ensures
        temp_path(record_path(c1, r1), s1) != record_path(c2, r2),
        temp_path(record_path(c1, r1), s1) == temp_path(record_path(c2, r2), s2) ==> c1 == c2 && r1
            == r2 && s1 == s2,
{
    lemma_record_key_plain(r1);
    lemma_record_key_plain(r2);
    lemma_temp_name(r1, s1);
    lemma_temp_name(r2, s2);
    let k1 = temp_path(record_key(r1), s1);
    let k2 = temp_path(record_key(r2), s2);
    assert(temp_path(record_path(c1, r1), s1) =~= dir_path(c1) + "/"@ + k1);
    assert(temp_path(record_path(c2, r2), s2) =~= dir_path(c2) + "/"@ + k2);
    if temp_path(record_path(c1, r1), s1) == record_path(c2, r2) {
        lemma_split_at_separator(dir_path(c1), k1, dir_path(c2), record_key(r2));
        assert(false);
    }
    if temp_path(record_path(c1, r1), s1) == temp_path(record_path(c2, r2), s2) {
        lemma_split_at_separator(dir_path(c1), k1, dir_path(c2), k2);
        lemma_temp_name_injective(record_key(r1), s1, record_key(r2), s2);
        assert(record_path(c1, r1) == record_path(c2, r2));
        law_record_paths_distinct(c1, r1, c2, r2);
    }
}

/// The name of a temporary file holds a dot and no separator.
proof fn lemma_temp_name(record: Record, suffix: u32)
    ensures
        temp_path(record_key(record), suffix).contains('.'),
        !temp_path(record_key(record), suffix).contains('/'),
{
    reveal_strlit(".");
    reveal_strlit(".temp");
    lemma_record_key_plain(record);
    crate::text::lemma_decimal_digits(suffix as nat);
    let key = record_key(record);
    let name = temp_path(key, suffix);
    assert(name[key.len() as int] == '.');
    assert forall|i: int| 0 <= i < name.len() implies name[i] != '/' by {
        if i < key.len() {
            assert(name[i] == key[i]);
        } else if i > key.len() && i < key.len() + 1 + crate::text::decimal(suffix as nat).len() {
            assert(name[i] == crate::text::decimal(suffix as nat)[i - key.len() - 1]);
        }
    }
}

/// The name of a temporary file tells the record's name and the suffix.
proof fn lemma_temp_name_injective(k1: Seq<char>, s1: u32, k2: Seq<char>, s2: u32)
    requires
        temp_path(k1, s1) == temp_path(k2, s2),
        !k1.contains('.'),
        !k2.contains('.'),
    ensures
        k1 == k2,
        s1 == s2,
{
    reveal_strlit(".");
    reveal_strlit(".temp");
    let d1 = crate::text::decimal(s1 as nat);
    let d2 = crate::text::decimal(s2 as nat);
    let n1 = temp_path(k1, s1);
    let n2 = temp_path(k2, s2);
    assert(n1[k1.len() as int] == '.');
    assert(n2[k2.len() as int] == '.');
    if k1.len() < k2.len() {
        assert(n2[k1.len() as int] == k2[k1.len() as int]);
    }
    if k2.len() < k1.len() {
        assert(n1[k2.len() as int] == k1[k2.len() as int]);
    }
    assert(k1 =~= n1.take(k1.len() as int));
    assert(k2 =~= n2.take(k2.len() as int));
    assert(d1 =~= n1.subrange(k1.len() as int + 1, k1.len() as int + 1 + d1.len() as int));
    assert(d2 =~= n2.subrange(k2.len() as int + 1, k2.len() as int + 1 + d2.len() as int));
    assert(n1.len() == n2.len());
    crate::text::lemma_decimal_injective(s1 as nat, s2 as nat);
}

/// A write in which the directory, the temporary file, the data and the move come
/// out as given. It succeeds exactly when all four do; the final path is touched
/// only by the move, and the move comes only after all of the data was written.
/// Where the data could not be written, the temporary file is removed and the
/// write fails.
pub proof fn law_write_is_all_or_nothing<E>(
    dir: Result<(), E>,
    temp: Result<(), E>,
    data: Result<(), E>,
    last: Result<(), E>,
)
    ensures
        ({
            let s1 = write_step_after(WriteStep::CreateDir, dir);
            let s2 = write_step_after(s1, temp);
            let s3 = write_step_after(s2, data);
            let s4 = write_step_after(s3, last);
            &&& s4 is Finished
            &&& s4->Finished_0 is Ok <==> dir is Ok && temp is Ok && data is Ok && last is Ok
            &&& !(s1 is Rename) && !(s2 is Rename) && !(s4 is Rename)
            &&& s3 is Rename <==> dir is Ok && temp is Ok && data is Ok
            &&& s3 is Remove <==> dir is Ok && temp is Ok && data is Err
        }),
{
}

/// The file names of records: a block's is its number, and the others are fixed.
pub proof fn law_record_names(number: u64)
    ensures
        crate::text::decimal_value(record_key(Record::Block(number))) == number,
        record_key(Record::HighestBlockNumber) == "highest_block_number"@,
        record_key(Record::Tps) == "tps"@,
        record_key(Record::BlockRuns) == "block_runs"@,
{
    crate::text::law_decimal_text_reads_as_its_number(number as nat);
}

/// A write makes the directory that its files lie in, writes to a file beside the final
/// one, whose name begins with that of the final one, and carries the data unchanged.
pub proof fn law_write_stays_in_its_directory<T>(
    write: DbWrite<T>,
    dir: Seq<char>,
    key: Seq<char>,
    data: T,
)
    requires
        write.stores(dir, key, data),
    ensures
        write.file_dir@ == "db/"@ + dir,
        write.file_path@ == write.file_dir@ + "/"@ + key,
        write.temp_file_path@.len() > write.file_path@.len() + 6,
        write.temp_file_path@.take(write.file_path@.len() as int + 1) == write.file_path@ + "."@,
        write.temp_file_path@.skip(write.temp_file_path@.len() - 5) == ".temp"@,
        write.data == data,
{
    let suffix = choose|suffix: u32| #[trigger] write.writes(dir, key, data, suffix);
    crate::text::lemma_decimal_digits(suffix as nat);
    reveal_strlit("db/");
    reveal_strlit("db");
    reveal_strlit("/");
    reveal_strlit(".");
    reveal_strlit(".temp");
    assert("db"@ + "/"@ =~= "db/"@);
    let (path, temp) = (write.file_path@, write.temp_file_path@);
    assert(temp.take(path.len() as int + 1) =~= path + "."@);
    assert(temp.skip(temp.len() - 5) =~= ".temp"@);
}

/// The temporary name holds the suffix that was drawn.
pub proof fn law_temporary_name_holds_its_suffix(path: Seq<char>, suffix: u32)
    ensures
        ({
            let temp = temp_path(path, suffix);
            &&& temp.len() >= path.len() + 6
            &&& crate::text::decimal_value(
                temp.subrange(path.len() as int + 1, temp.len() - 5),
            ) == suffix
        }),
{
    crate::text::law_decimal_text_reads_as_its_number(suffix as nat);
    reveal_strlit(".");
    reveal_strlit(".temp");
    let temp = temp_path(path, suffix);
    assert(temp.subrange(path.len() as int + 1, temp.len() - 5) =~= crate::text::decimal(
        suffix as nat,
    ));
}

/// A write that fails gives the reason of the first step that failed, but for one: where
/// the data could not be written and the temporary file cannot be removed either, the
/// reason is that of the removal. What has ended stays so.
pub proof fn law_write_gives_the_first_reason<E>(e: E, outcome: Result<(), E>)
    ensures
        write_step_after(WriteStep::CreateDir, Err(e)) == WriteStep::<E>::Finished(Err(e)),
        write_step_after(WriteStep::CreateTemp, Err(e)) == WriteStep::<E>::Finished(Err(e)),
        write_step_after(WriteStep::Rename, Err(e)) == WriteStep::<E>::Finished(Err(e)),
        write_step_after(WriteStep::Serialize, Err(e)) == WriteStep::<E>::Remove(e),
        write_step_after(WriteStep::Remove(e), Ok(())) == WriteStep::<E>::Finished(Err(e)),
        outcome is Err ==> write_step_after(WriteStep::Remove(e), outcome)
            == WriteStep::Finished(outcome),
        write_step_after(WriteStep::Finished(Err(e)), outcome) == WriteStep::<E>::Finished(Err(e)),
        write_step_after(WriteStep::Finished(Ok(())), outcome) == WriteStep::<E>::Finished(Ok(())),
        write_step_after::<E>(WriteStep::CreateDir, Ok(())) is CreateTemp,
        write_step_after::<E>(WriteStep::CreateTemp, Ok(())) is Serialize,
        write_step_after::<E>(WriteStep::Serialize, Ok(())) is Rename,
{
}

/// The views of blocks and runs show their fields as they are, and those of lists show
/// each item in its place.
pub proof fn law_views_show_the_fields(
    block: Block,
    run: BlockRun,
    prev: PreviousBlock,
    blocks: Seq<Block>,
    runs: Seq<BlockRun>,
    i: int,
)
    ensures
        block@.chain == block.chain@,
        block@.block_number == block.block_number,
        block@.prev_block_number == block.prev_block_number,
        block@.timestamp == block.timestamp,
        block@.num_txs == block.num_txs,
        block@.hash == block.hash@,
        block@.parent_hash == block.parent_hash@,
        prev@.prev_block_number == prev.prev_block_number,
        prev@.prev_block_hash == prev.prev_block_hash@,
        run@.newest_block_number == run.newest_block_number,
        run@.newest_block_hash == run.newest_block_hash@,
        run@.newest_block_timestamp == run.newest_block_timestamp,
        run@.oldest_block_timestamp == run.oldest_block_timestamp,
        run@.prev_block is Some <==> run.prev_block is Some,
        run.prev_block is Some ==> run@.prev_block->Some_0 == run.prev_block->Some_0@,
        run@.num_blocks == run.num_blocks,
        run@.num_txs == run.num_txs,
        block_views(blocks).len() == blocks.len(),
        run_views(runs).len() == runs.len(),
        0 <= i < blocks.len() ==> block_views(blocks)[i] == blocks[i]@,
        0 <= i < runs.len() ==> run_views(runs)[i] == runs[i]@,
{
}

} // verus!
