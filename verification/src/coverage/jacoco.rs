//! Coverage from JaCoCo execution data: the `.exec` file format and its probe hashing.
use vstd::prelude::*;
use vstd::utf8::{valid_utf8, decode_utf8};
use std::path::PathBuf;
use super::{CoverageError, COVERAGE_MAP_SIZE, zeros};

verus! {

#[verifier::external_type_specification]
#[verifier::external_body]
pub struct ExPathBuf(std::path::PathBuf);

#[verifier::external_type_specification]
#[verifier::external_body]
pub struct ExFromUtf8Error(std::string::FromUtf8Error);

/// Calls `String::from_utf8`, which accepts exactly the valid UTF-8 byte strings.
#[verifier::external_body]
fn string_from_utf8(bytes: Vec<u8>) -> (r: Result<String, std::string::FromUtf8Error>)
    ensures
        r is Ok <==> valid_utf8(bytes@),
        r matches Ok(s) ==> s@ == decode_utf8(bytes@),
{
    String::from_utf8(bytes)
}

/// Spells out a UTF-8 decoding error through its `Display` impl.
#[verifier::external_body]
fn utf8_error_text(e: &std::string::FromUtf8Error) -> String {
    e.to_string()
}

pub const JACOCO_BLOCK_EXECUTIONDATA: u8 = 0x11;
pub const JACOCO_BLOCK_SESSIONINFO: u8 = 0x10;
pub const JACOCO_BLOCK_HEADER: u8 = 0x01;
pub const JACOCO_CMD_DUMP: u8 = 0x40;

/// The value of big-endian bytes.
pub open spec fn be_value(s: Seq<u8>) -> nat
    decreases s.len(),
{
    if s.len() == 0 {
        0
    } else {
        be_value(s.drop_last()) * 256 + s.last() as nat
    }
}

pub open spec fn pow256(n: nat) -> nat
    decreases n,
{
    if n == 0 {
        1
    } else {
        pow256((n - 1) as nat) * 256
    }
}

proof fn lemma_be_value_bound(s: Seq<u8>)
    ensures
        be_value(s) < pow256(s.len()),
    decreases s.len(),
{
    if s.len() > 0 {
        lemma_be_value_bound(s.drop_last());
    }
}

/// The 64-bit mixing hash of a class id and probe index.
pub open spec fn probe_hash(class_id: u64, probe_idx: u32) -> u64 {
    let h1 = class_id.wrapping_mul(0x9E3779B97F4A7C15u64);
    let h2 = h1 ^ (probe_idx as u64);
    let h3 = h2.wrapping_mul(0x517CC1B727220A95u64);
    h3 ^ (h3 >> 32u64)
}

/// The slot a probe lands in.
pub open spec fn probe_slot(class_id: u64, probe_idx: u32, map_size: nat) -> int {
    ((probe_hash(class_id, probe_idx) as usize) as int) % (map_size as int)
}

/// Maps a probe of a class to a bitmap slot.
pub fn hash_probe_to_map(class_id: u64, probe_idx: u32, map_size: usize) -> (r: usize)
    requires
        map_size > 0,
    ensures
        r as int == probe_slot(class_id, probe_idx, map_size as nat),
        r < map_size,
{
    let mut hash = class_id.wrapping_mul(0x9E3779B97F4A7C15u64);
    hash = hash ^ (probe_idx as u64);
    hash = hash.wrapping_mul(0x517CC1B727220A95u64);
    hash = hash ^ (hash >> 32u64);
    (hash as usize) % map_size
}

/// The five-byte command that asks a JaCoCo agent to dump (and optionally reset) its data.
pub fn build_dump_command(reset: bool) -> (cmd: Vec<u8>)
    ensures
        cmd@ == seq![JACOCO_CMD_DUMP, if reset { 1u8 } else { 0u8 }, 0u8, 0u8, 0u8],
{
    let mut cmd: Vec<u8> = Vec::with_capacity(5);
    cmd.push(JACOCO_CMD_DUMP);
    cmd.push(if reset { 1u8 } else { 0u8 });
    cmd.push(0u8);
    cmd.push(0u8);
    cmd.push(0u8);
    assert(cmd@ =~= seq![JACOCO_CMD_DUMP, if reset { 1u8 } else { 0u8 }, 0u8, 0u8, 0u8]);
    cmd
}

/// A slot's count plus one, stopping at 255.
pub open spec fn sat_inc(x: u8) -> u8 {
    if x == 255 {
        255
    } else {
        (x + 1) as u8
    }
}

/// The bitmap after counting every non-zero probe byte of a class.
pub open spec fn apply_probes(bm: Seq<u8>, class_id: u64, probes: Seq<u8>, map_size: nat) -> Seq<u8>
    decreases probes.len(),
{
    if probes.len() == 0 {
        bm
    } else {
        let prev = apply_probes(bm, class_id, probes.drop_last(), map_size);
        if probes.last() != 0 {
            let h = probe_slot(class_id, (probes.len() - 1) as u32, map_size);
            prev.update(h, sat_inc(prev[h]))
        } else {
            prev
        }
    }
}

proof fn lemma_apply_probes_len(bm: Seq<u8>, class_id: u64, probes: Seq<u8>, map_size: nat)
    requires
        bm.len() == map_size,
        map_size > 0,
    ensures
        apply_probes(bm, class_id, probes, map_size).len() == map_size,
    decreases probes.len(),
{
    if probes.len() > 0 {
        lemma_apply_probes_len(bm, class_id, probes.drop_last(), map_size);
    }
}

/// A big-endian `u16` at `pos`.
pub open spec fn be16_at(data: Seq<u8>, pos: int) -> nat {
    data[pos] as nat * 256 + data[pos + 1] as nat
}

/// Where a length-prefixed UTF-8 string at `pos` ends, if it is complete and valid.
pub open spec fn utf8_end(data: Seq<u8>, pos: int) -> Option<int> {
    if pos + 2 > data.len() {
        None
    } else {
        let r = pos + 2;
        let n = be16_at(data, pos);
        if r + n > data.len() {
            None
        } else if !valid_utf8(data.subrange(r, r + n)) {
            None
        } else {
            Some(r + n)
        }
    }
}

/// Where a session-info block whose body starts at `pos` ends.
pub open spec fn session_end(data: Seq<u8>, pos: int) -> Option<int> {
    match utf8_end(data, pos) {
        Some(q) => if q + 16 <= data.len() { Some(q + 16) } else { None },
        None => None,
    }
}

/// Reading an execution-data block whose body starts at `pos`: where it ends and the bitmap after it.
/// Probes cut off by the end of the data are skipped.
pub open spec fn block_step(data: Seq<u8>, pos: int, bm: Seq<u8>, map_size: nat) -> Option<(int, Seq<u8>)> {
    if pos + 8 > data.len() {
        None
    } else {
        let class_id = be_value(data.subrange(pos, pos + 8)) as u64;
        match utf8_end(data, pos + 8) {
            Some(s) => if s + 2 > data.len() {
                None
            } else {
                let count = be16_at(data, s);
                let u = s + 2;
                let avail = if count <= data.len() - u { count as int } else { data.len() - u };
                Some((u + avail, apply_probes(bm, class_id, data.subrange(u, u + avail), map_size)))
            },
            None => None,
        }
    }
}

/// Reading blocks from `pos` on until the data ends or an unknown block type stands there.
pub open spec fn parse_blocks(data: Seq<u8>, pos: int, bm: Seq<u8>, map_size: nat) -> Result<Seq<u8>, ()>
    decreases data.len() - pos,
{
    if pos < 0 || pos >= data.len() {
        Ok(bm)
    } else {
        let t = data[pos];
        let p = pos + 1;
        if t == JACOCO_BLOCK_HEADER {
            parse_blocks(data, if p + 4 <= data.len() { p + 4 } else { data.len() as int }, bm, map_size)
        } else if t == JACOCO_BLOCK_SESSIONINFO {
            match session_end(data, p) {
                Some(q) => parse_blocks(data, q, bm, map_size),
                None => Err(()),
            }
        } else if t == JACOCO_BLOCK_EXECUTIONDATA {
            match block_step(data, p, bm, map_size) {
                Some((q, bm2)) => parse_blocks(data, q, bm2, map_size),
                None => Err(()),
            }
        } else {
            Ok(bm)
        }
    }
}

/// The bitmap after reading a whole `.exec` file: a five-byte header (eight bytes when it
/// does not start with `01 C0`), then blocks. Data too short for the header leaves the bitmap as it is.
pub open spec fn parse_exec(data: Seq<u8>, bm: Seq<u8>, map_size: nat) -> Result<Seq<u8>, ()> {
    if data.len() < 5 {
        Ok(bm)
    } else if be16_at(data, 0) == 0x01C0 {
        parse_blocks(data, 5, bm, map_size)
    } else if data.len() < 8 {
        Ok(bm)
    } else {
        parse_blocks(data, 8, bm, map_size)
    }
}

fn eof_error(what: &str) -> (r: CoverageError)
    ensures
        r matches CoverageError::Parse(m) && m@ == what@ + ": failed to fill whole buffer"@,
{
    let mut msg = String::new();
    msg.append(what);
    msg.append(": failed to fill whole buffer");
    assert(msg@ =~= what@ + ": failed to fill whole buffer"@);
    CoverageError::Parse(msg)
}

/// Reads a big-endian `u64` at `pos`.
pub fn read_u64(data: &[u8], pos: usize) -> (r: Result<(u64, usize), CoverageError>)
    ensures
        pos + 8 <= data@.len() ==> (r matches Ok((v, q)) && q == pos + 8 && v as nat == be_value(
            data@.subrange(pos as int, pos + 8),
        )),
        pos + 8 > data@.len() ==> r matches Err(CoverageError::Parse(_)),
{
    if pos > data.len() || data.len() - pos < 8 {
        return Err(eof_error("Failed to read u64"));
    }
    let mut acc: u64 = 0;
    let mut i: usize = 0;
    let dl = data.len();
    while i < 8
        invariant
            dl == data@.len(),
            i <= 8,
            pos + 8 <= data@.len(),
            acc as nat == be_value(data@.subrange(pos as int, pos + i)),
        decreases 8 - i,
    {
        proof {
            let s = data@.subrange(pos as int, pos + i + 1);
            assert(s.drop_last() =~= data@.subrange(pos as int, pos + i));
            lemma_be_value_bound(s);
            lemma_pow256_8();
            lemma_pow256_mono(s.len(), 8);
            assert(s.last() == data@[pos + i]);
        }
        acc = acc * 256 + data[pos + i] as u64;
        i += 1;
    }
    Ok((acc, pos + 8))
}

proof fn lemma_pow256_8()
    ensures
        pow256(8) == 0x1_0000_0000_0000_0000nat,
{
    reveal_with_fuel(pow256, 9);
}

proof fn lemma_pow256_mono(a: nat, b: nat)
    requires
        a <= b,
    ensures
        pow256(a) <= pow256(b),
    decreases b,
{
    if a < b {
        lemma_pow256_mono(a, (b - 1) as nat);
    }
}

/// Reads a big-endian `u16` length at `pos`.
pub fn read_varint(data: &[u8], pos: usize) -> (r: Result<(usize, usize), CoverageError>)
    ensures
        pos + 2 <= data@.len() ==> (r matches Ok((v, q)) && q == pos + 2 && v as nat == be16_at(
            data@,
            pos as int,
        )),
        pos + 2 > data@.len() ==> r matches Err(CoverageError::Parse(_)),
{
    if pos > data.len() || data.len() - pos < 2 {
        return Err(eof_error("Failed to read varint"));
    }
    let v: usize = data[pos] as usize * 256 + data[pos + 1] as usize;
    Ok((v, pos + 2))
}

/// Reads a length-prefixed UTF-8 string at `pos`.
pub fn read_utf8(data: &[u8], pos: usize) -> (r: Result<(String, usize), CoverageError>)
    ensures
        utf8_end(data@, pos as int) matches Some(q) ==> (r matches Ok((s, q2)) && q2 == q && s@
            == decode_utf8(data@.subrange(pos + 2, q))),
        utf8_end(data@, pos as int) is None ==> r matches Err(CoverageError::Parse(_)),
{
    if pos > data.len() || data.len() - pos < 2 {
        return Err(eof_error("Failed to read string length"));
    }
    let n: usize = data[pos] as usize * 256 + data[pos + 1] as usize;
    let r0 = pos + 2;
    if data.len() - r0 < n {
        return Err(eof_error("Failed to read string data"));
    }
    let mut bytes: Vec<u8> = Vec::new();
    let mut i: usize = 0;
    let dl = data.len();
    while i < n
        invariant
            dl == data@.len(),
            i <= n,
            r0 + n <= data@.len(),
            bytes@ == data@.subrange(r0 as int, r0 + i),
        decreases n - i,
    {
        bytes.push(data[r0 + i]);
        assert(bytes@ =~= data@.subrange(r0 as int, r0 + i + 1));
        i += 1;
    }
    match string_from_utf8(bytes) {
        Ok(s) => Ok((s, r0 + n)),
        Err(e) => {
            let mut msg = String::new();
            msg.append("Invalid UTF-8: ");
            msg.append(utf8_error_text(&e).as_str());
            Err(CoverageError::Parse(msg))
        },
    }
}

/// Skips the body of a session-info block at `pos`: an id string and two timestamps.
pub fn skip_session_info(data: &[u8], pos: usize) -> (r: Result<usize, CoverageError>)
    ensures
        session_end(data@, pos as int) matches Some(q) ==> (r matches Ok(q2) && q2 == q),
        session_end(data@, pos as int) is None ==> r matches Err(CoverageError::Parse(_)),
{
    let (_id, q) = read_utf8(data, pos)?;
    if data.len() - q < 16 {
        return Err(eof_error("Failed to read session timestamps"));
    }
    Ok(q + 16)
}

/// Collects coverage from the `.exec` file a JaCoCo agent writes, or from an agent over TCP.
pub struct JacocoCoverageCollector {
    exec_file_path: Option<PathBuf>,
    agent_address: Option<String>,
    map_size: usize,
    last_probe_data: Vec<u8>,
}

impl JacocoCoverageCollector {
    #[verifier::type_invariant]
    spec fn inv(&self) -> bool {
        self.map_size == COVERAGE_MAP_SIZE
    }

    pub closed spec fn exec_file_spec(&self) -> Option<PathBuf> {
        self.exec_file_path
    }

    pub closed spec fn agent_spec(&self) -> Option<Seq<char>> {
        match self.agent_address {
            Some(a) => Some(a@),
            None => None,
        }
    }

    pub closed spec fn map_size_spec(&self) -> nat {
        self.map_size as nat
    }

    /// The bitmap of the last successful collection.
    pub closed spec fn last_probe_spec(&self) -> Seq<u8> {
        self.last_probe_data@
    }

    /// A collector that reads the given `.exec` file.
    pub fn from_exec_file(path: PathBuf) -> (r: Self)
        ensures
            r.exec_file_spec() == Some(path),
            r.agent_spec() is None,
            r.map_size_spec() == COVERAGE_MAP_SIZE,
            r.last_probe_spec() == Seq::new(COVERAGE_MAP_SIZE as nat, |i: int| 0u8),
    {
        JacocoCoverageCollector {
            exec_file_path: Some(path),
            agent_address: None,
            map_size: COVERAGE_MAP_SIZE,
            last_probe_data: zeros(COVERAGE_MAP_SIZE),
        }
    }

    /// A collector that asks the agent at `address` to dump its data.
    pub fn from_agent(address: String) -> (r: Self)
        ensures
            r.exec_file_spec() is None,
            r.agent_spec() == Some(address@),
            r.map_size_spec() == COVERAGE_MAP_SIZE,
            r.last_probe_spec() == Seq::new(COVERAGE_MAP_SIZE as nat, |i: int| 0u8),
    {
        JacocoCoverageCollector {
            exec_file_path: None,
            agent_address: Some(address),
            map_size: COVERAGE_MAP_SIZE,
            last_probe_data: zeros(COVERAGE_MAP_SIZE),
        }
    }

    /// The `.exec` file this collector reads, if any.
    pub fn exec_file_path(&self) -> (r: Option<&PathBuf>)
        ensures
            r matches Some(p) ==> self.exec_file_spec() == Some(*p),
            r is None ==> self.exec_file_spec() is None,
    {
        match &self.exec_file_path {
            Some(p) => Some(p),
            None => None,
        }
    }

    /// The agent to send a dump command to before reading, and that command.
    pub fn dump_request(&self) -> (r: Option<(String, Vec<u8>)>)
        ensures
            match self.agent_spec() {
                Some(a) => r matches Some((addr, cmd)) && addr@ == a && cmd@ == seq![
                    JACOCO_CMD_DUMP,
                    1u8,
                    0u8,
                    0u8,
                    0u8,
                ],
                None => r is None,
            },
    {
        match &self.agent_address {
            Some(a) => Some((a.clone(), build_dump_command(true))),
            None => None,
        }
    }

    /// Counts the probes of the `.exec` data into `bitmap`.
    pub fn parse_exec_data(&self, data: &[u8], bitmap: &mut Vec<u8>) -> (r: Result<(), CoverageError>)
        requires
            old(bitmap)@.len() == self.map_size_spec(),
        ensures
            match parse_exec(data@, old(bitmap)@, self.map_size_spec()) {
                Ok(bm) => r is Ok && final(bitmap)@ == bm,
                Err(_) => r matches Err(CoverageError::Parse(_)),
            },
    {
        proof {
            use_type_invariant(self);
        }
        if data.len() < 5 {
            return Ok(());
        }
        let magic: usize = data[0] as usize * 256 + data[1] as usize;
        let mut pos: usize = 5;
        if magic != 0x01C0 {
            if data.len() < 8 {
                return Ok(());
            }
            pos = 8;
        }
        loop
            invariant
                pos <= data@.len(),
                bitmap@.len() == self.map_size_spec(),
                self.map_size_spec() == COVERAGE_MAP_SIZE,
                parse_exec(data@, old(bitmap)@, self.map_size_spec()) == parse_blocks(
                    data@,
                    pos as int,
                    bitmap@,
                    self.map_size_spec(),
                ),
            decreases data@.len() - pos,
        {
            if pos >= data.len() {
                return Ok(());
            }
            let t = data[pos];
            let p = pos + 1;
            if t == JACOCO_BLOCK_HEADER {
                pos = if data.len() - p >= 4 { p + 4 } else { data.len() };
            } else if t == JACOCO_BLOCK_SESSIONINFO {
                pos = skip_session_info(data, p)?;
            } else if t == JACOCO_BLOCK_EXECUTIONDATA {
                pos = self.parse_execution_data_block(data, p, bitmap)?;
            } else {
                return Ok(());
            }
        }
    }

    /// Reads an execution-data block whose body starts at `pos` and counts its probes.
    pub fn parse_execution_data_block(&self, data: &[u8], pos: usize, bitmap: &mut Vec<u8>) -> (r: Result<
        usize,
        CoverageError,
    >)
        requires
            old(bitmap)@.len() == self.map_size_spec(),
        ensures
            match block_step(data@, pos as int, old(bitmap)@, self.map_size_spec()) {
                Some((q, bm)) => r matches Ok(q2) && q2 == q && final(bitmap)@ == bm,
                None => r matches Err(CoverageError::Parse(_)),
            },
            final(bitmap)@.len() == old(bitmap)@.len(),
    {
        proof {
            use_type_invariant(self);
        }
        let ghost bm0 = bitmap@;
        let (class_id, q) = read_u64(data, pos)?;
        let (_name, s) = read_utf8(data, q)?;
        let (probe_count, u) = read_varint(data, s)?;
        let ghost avail: int = if probe_count <= data@.len() - u { probe_count as int } else {
            data@.len() - u
        };
        let mut probe_idx: usize = 0;
        let mut at: usize = u;
        let dl = data.len();
        while probe_idx < probe_count && at < dl
            invariant
                dl == data@.len(),
                bm0.len() == self.map_size_spec(),
                u <= data@.len(),
                probe_count < 65536,
                at == u + probe_idx,
                probe_idx <= probe_count,
                at <= data@.len(),
                bitmap@.len() == self.map_size_spec(),
                self.map_size_spec() == COVERAGE_MAP_SIZE,
                bitmap@ == apply_probes(bm0, class_id, data@.subrange(u as int, at as int), self.map_size_spec()),
            decreases probe_count - probe_idx,
        {
            let b = data[at];
            let ghost probes = data@.subrange(u as int, at + 1);
            proof {
                assert(probes.drop_last() =~= data@.subrange(u as int, at as int));
                lemma_apply_probes_len(bm0, class_id, probes.drop_last(), self.map_size_spec());
            }
            if b != 0 {
                let idx = hash_probe_to_map(class_id, probe_idx as u32, self.map_size);
                let cur = bitmap[idx];
                bitmap.set(idx, cur.saturating_add(1));
            }
            probe_idx += 1;
            at += 1;
        }
        proof {
            assert(at == u + avail);
        }
        Ok(at)
    }

    /// The decision part of collecting: `contents` is the `.exec` file's bytes, or `None` when
    /// the file does not exist. The bitmap is remembered as the last probe data.
    pub fn collect_from_exec_contents(&mut self, contents: Option<Vec<u8>>) -> (r: Result<Vec<u8>, CoverageError>)
        ensures
            old(self).exec_file_spec() is None ==> (r matches Err(CoverageError::Parse(m))
                && m@ == "No exec file path configured"@ && *final(self) == *old(self)),
            old(self).exec_file_spec() is Some ==> match contents {
                None => r matches Ok(v) && v@ == Seq::new(COVERAGE_MAP_SIZE as nat, |i: int| 0u8)
                    && final(self).last_probe_spec() == v@,
                Some(d) => match parse_exec(d@, Seq::new(COVERAGE_MAP_SIZE as nat, |i: int| 0u8), COVERAGE_MAP_SIZE as nat) {
                    Ok(bm) => r matches Ok(v) && v@ == bm && final(self).last_probe_spec() == bm,
                    Err(_) => r matches Err(CoverageError::Parse(_)) && *final(self) == *old(self),
                },
            },
            final(self).exec_file_spec() == old(self).exec_file_spec(),
            final(self).agent_spec() == old(self).agent_spec(),
    {
        proof {
            use_type_invariant(&*self);
        }
        if self.exec_file_path.is_none() {
            let mut msg = String::new();
            msg.append("No exec file path configured");
            assert(msg@ =~= "No exec file path configured"@);
            return Err(CoverageError::Parse(msg));
        }
        let mut bitmap = zeros(self.map_size);
        match contents {
            None => {},
            Some(d) => {
                self.parse_exec_data(d.as_slice(), &mut bitmap)?;
            },
        }
        self.last_probe_data = copy_bytes(&bitmap);
        Ok(bitmap)
    }

    /// Forgets the last probe data (the caller removes the `.exec` file).
    pub fn reset_probe_data(&mut self)
        ensures
            final(self).last_probe_spec() == Seq::new(COVERAGE_MAP_SIZE as nat, |i: int| 0u8),
            final(self).exec_file_spec() == old(self).exec_file_spec(),
            final(self).agent_spec() == old(self).agent_spec(),
    {
        proof {
            use_type_invariant(&*self);
        }
        self.last_probe_data = zeros(self.map_size);
    }

    pub fn map_size(&self) -> (n: usize)
        ensures
            n == self.map_size_spec(),
            n == COVERAGE_MAP_SIZE,
    {
        proof {
            use_type_invariant(self);
        }
        self.map_size
    }

    pub fn name(&self) -> (r: &str)
        ensures
            r@ == "jacoco"@,
    {
        "jacoco"
    }
}

/// A copy of the bytes.
pub fn copy_bytes(v: &Vec<u8>) -> (r: Vec<u8>)
    ensures
        r@ == v@,
{
    let mut out: Vec<u8> = Vec::new();
    let mut i: usize = 0;
    while i < v.len()
        invariant
            i <= v.len(),
            out@ == v@.take(i as int),
        decreases v.len() - i,
    {
        out.push(v[i]);
        assert(out@ =~= v@.take(i as int + 1));
        i += 1;
    }
    assert(v@.take(v.len() as int) =~= v@);
    out
}

} // verus!
