//! The decisions of the memory access benchmark of the remote-procedure-call client:
//! which requests it sends and when it stops.
use vstd::prelude::*;

verus! {

/// Where the client connects to.
pub struct Config {
    pub host: String,
}

/// A memory read request of the benchmark.
pub enum ReadRequest {
    /// Reads of a process's virtual memory: connection, pid, whether addresses are
    /// relative to module bases, and (address, length) reads.
    Virtual { conn_id: String, pid: u32, base_offsets: bool, reads: Vec<(u64, u64)> },
    /// Reads of physical memory: connection and (address, length) reads.
    Physical { conn_id: String, reads: Vec<(u64, u64)> },
}

/// How many seconds the benchmark runs at least.
pub const BENCH_SECONDS: u64 = 10;

/// How many requests the asynchronous benchmark sends at most.
pub const ASYNC_RUN_LIMIT: u64 = 20000;

/// Whether a run goes on after `runs` requests were sent and `elapsed` seconds passed:
/// not after more than ten seconds, and, for an asynchronous run, not once it has sent
/// 20000 requests.
pub open spec fn goes_on(async_mode: bool, runs: u64, elapsed: u64) -> bool {
    !(elapsed > BENCH_SECONDS || (async_mode && runs >= ASYNC_RUN_LIMIT))
}

/// Law: a synchronous run is bounded by time alone, however many requests it sent; an
/// asynchronous run is bounded by time and also ends once it has sent 20000 requests.
pub proof fn lemma_run_paths(runs: u64, elapsed: u64)
    ensures
        goes_on(false, runs, elapsed) <==> elapsed <= BENCH_SECONDS,
        goes_on(true, runs, elapsed) <==> elapsed <= BENCH_SECONDS && runs < ASYNC_RUN_LIMIT,
{
}

/// A benchmark run: what it reads and how many requests it has sent.
pub struct Benchmark {
    pub host: String,
    pub physical_mode: bool,
    pub conn_id: String,
    pub read_size: u64,
    pub async_mode: bool,
    pub runs: u64,
}

/// Starts a benchmark of memory reads over the connection `conn_id`: `read_size` bytes
/// per request, of physical or virtual memory, sent one after another or all at once.
/// It first asks for the process with pid 0 (`Benchmark::process_query`), builds its
/// request from that process's address (`Benchmark::request`), and sends it until
/// `Benchmark::sent` says to stop.
pub fn benchmark(conf: &Config, physical_mode: bool, conn_id: &str, read_size: u64, async_mode: bool) -> (b: Benchmark)
    ensures
        b.host@ == conf.host@,
        b.physical_mode == physical_mode,
        b.conn_id@ == conn_id@,
        b.read_size == read_size,
        b.async_mode == async_mode,
        b.runs == 0,
{
    Benchmark {
        host: conf.host.clone(),
        physical_mode,
        conn_id: String::from_str(conn_id),
        read_size,
        async_mode,
        runs: 0,
    }
}

impl Benchmark {
    /// The process whose address is read: the connection and pid 0.
    pub fn process_query(&self) -> (q: (String, u32))
        ensures
            q.0@ == self.conn_id@,
            q.1 == 0,
    {
        (self.conn_id.clone(), 0)
    }

    /// The request sent on each run: one read of `read_size` bytes at the process's
    /// address, of physical memory in physical mode, otherwise of the virtual memory of
    /// pid 0 with absolute addresses.
    pub fn request(&self, address: u64) -> (r: ReadRequest)
        ensures
            self.physical_mode ==> (r matches ReadRequest::Physical { conn_id, reads } && conn_id@
                == self.conn_id@ && reads@ == seq![(address, self.read_size)]),
            !self.physical_mode ==> (r matches ReadRequest::Virtual { conn_id, pid, base_offsets, reads }
                && conn_id@ == self.conn_id@ && pid == 0 && !base_offsets && reads@ == seq![
                (address, self.read_size),
            ]),
    {
        let mut reads: Vec<(u64, u64)> = Vec::new();
        reads.push((address, self.read_size));
        if self.physical_mode {
            ReadRequest::Physical { conn_id: self.conn_id.clone(), reads }
        } else {
            ReadRequest::Virtual { conn_id: self.conn_id.clone(), pid: 0, base_offsets: false, reads }
        }
    }

    /// Counts a sent request and says whether to send another: a run stops once more
    /// than ten seconds have passed since it started, and an asynchronous run also once
    /// it has sent 20000 requests.
    pub fn sent(&mut self, elapsed_secs: u64) -> (more: bool)
        requires
            old(self).runs < u64::MAX,
        ensures
            final(self).runs == old(self).runs + 1,
            final(self).host@ == old(self).host@,
            final(self).physical_mode == old(self).physical_mode,
            final(self).conn_id@ == old(self).conn_id@,
            final(self).read_size == old(self).read_size,
            final(self).async_mode == old(self).async_mode,
            more == goes_on(old(self).async_mode, final(self).runs, elapsed_secs),
    {
        self.runs = self.runs + 1;
        if elapsed_secs > BENCH_SECONDS {
            false
        } else if self.async_mode && self.runs >= ASYNC_RUN_LIMIT {
            false
        } else {
            true
        }
    }
}

} // verus!
