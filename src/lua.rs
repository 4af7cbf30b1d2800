//! Evaluation of the saved-variables file in a sandboxed Lua interpreter, and
//! the copy of the database global into a plain value tree.
use vstd::prelude::*;
use vstd::string::StringSliceAdditionalSpecFns;
use crate::record::DeathRecord;
use crate::savedvars::{latest_death, latest_entry, latest_of, LuaVal};
use crate::script::{is_data_script, is_data_script_text};

verus! {

#[verifier::external_type_specification]
#[verifier::external_body]
pub struct ExLuaError(mlua::Error);

#[verifier::external_type_specification]
#[verifier::external_body]
pub struct ExLua(mlua::Lua);

#[verifier::external_type_specification]
#[verifier::external_body]
pub struct ExLuaValue<'lua>(mlua::Value<'lua>);

#[verifier::external_type_specification]
#[verifier::external_body]
#[verifier::reject_recursive_types(K)]
#[verifier::reject_recursive_types(V)]
pub struct ExTablePairs<'lua, K, V>(mlua::TablePairs<'lua, K, V>);

#[verifier::external_type_specification]
#[verifier::external_body]
pub struct ExLuaTable<'lua>(mlua::Table<'lua>);

/// Bytes the interpreter may allocate for one file.
pub const LUA_MEMORY_LIMIT: usize = 268435456;

/// How deeply tables may nest in the database global.
pub const MAX_LUA_DEPTH: usize = 64;

/// How many values may be read out of the database global in all.
pub const MAX_LUA_VALUES: usize = 4000000;

/// A Lua value as the copy sees it: a finished leaf, or a table to open.
pub enum LuaItem<'lua> {
    Leaf(LuaVal),
    Table(mlua::Table<'lua>),
}

/// Why the saved-variables file could not be read.
#[derive(Debug)]
pub enum ReadError {
    /// The text is not a data script (see `script`), so it is not run.
    NotData,
    /// The interpreter rejected the file: it is malformed, was caught half
    /// written, or ran out of memory. Worth trying again later.
    Eval(mlua::Error),
    /// The latest death's tables nest more deeply than `MAX_LUA_DEPTH`, or
    /// refer to themselves.
    TooDeep,
    /// Reading the deaths took more than `MAX_LUA_VALUES` values.
    TooManyValues,
}

/// Relies on mlua's `Lua::new_with` and `Lua::set_memory_limit`: a fresh
/// interpreter with no standard library beyond the base one, whose
/// allocations fail past `memory_limit` bytes.
#[verifier::external_body]
fn sandbox(memory_limit: usize) -> (r: Result<mlua::Lua, mlua::Error>) {
    let lua = mlua::Lua::new_with(mlua::StdLib::NONE, mlua::LuaOptions::default())?;
    lua.set_memory_limit(memory_limit)?;
    Ok(lua)
}

/// Relies on mlua's `Lua::load` and `Chunk::exec`: compiles and runs
/// `content`. A data script has no loop, function or call, so the run ends.
#[verifier::external_body]
fn run_chunk(lua: &mlua::Lua, content: &str) -> (r: Result<(), mlua::Error>)
    requires
        is_data_script(content.spec_bytes()),
{
    lua.load(content).exec()
}

/// Relies on mlua's `Lua::globals` and `Table::get`: the global `name`, nil
/// when it is unset.
#[verifier::external_body]
fn global<'lua>(lua: &'lua mlua::Lua, name: &str) -> (r: Result<mlua::Value<'lua>, mlua::Error>) {
    lua.globals().get::<_, mlua::Value>(name)
}

/// Relies on mlua's `String::to_str`: a non-table value as a leaf (a string
/// that is not UTF-8 as `Bytes`, a non-integral number as its bits), a
/// table as itself.
#[verifier::external_body]
fn classify<'lua>(v: mlua::Value<'lua>) -> (r: LuaItem<'lua>) {
    LuaItem::Leaf(match v {
        mlua::Value::Table(t) => return LuaItem::Table(t),
        mlua::Value::Nil => LuaVal::Nil,
        mlua::Value::Boolean(b) => LuaVal::Bool(b),
        mlua::Value::Integer(i) => LuaVal::Int(i),
        mlua::Value::Number(n) => LuaVal::Num(n.to_bits()),
        mlua::Value::String(s) => s.to_str().map_or(LuaVal::Bytes, |t| LuaVal::Str(t.to_owned())),
        _ => LuaVal::Other,
    })
}

/// Relies on mlua's `Table::pairs`: an iterator over the pairs of `t`, which
/// holds the table and the last key handed out.
#[verifier::external_body]
fn pairs_of<'lua>(t: &mlua::Table<'lua>) -> (r: mlua::TablePairs<
    'lua,
    mlua::Value<'lua>,
    mlua::Value<'lua>,
>) {
    t.clone().pairs()
}

/// Relies on mlua's `TablePairs::next`: the next pair, in the order Lua hands
/// them out, or none at the end. Nothing is promised of that order.
#[verifier::external_body]
fn next_pair<'lua>(it: &mut mlua::TablePairs<'lua, mlua::Value<'lua>, mlua::Value<'lua>>) -> (r:
    Option<Result<(mlua::Value<'lua>, mlua::Value<'lua>), mlua::Error>>) {
    it.next()
}

/// Relies on mlua's `Table::get`: the value of `t` under the integer key `k`,
/// nil when there is none.
#[verifier::external_body]
fn table_at<'lua>(t: &mlua::Table<'lua>, k: i64) -> (r: Result<mlua::Value<'lua>, mlua::Error>) {
    t.get::<_, mlua::Value>(k)
}

/// Relies on mlua's `Table::get`: the value of `t` under the string key
/// `name`, nil when there is none.
#[verifier::external_body]
fn table_field<'lua>(t: &mlua::Table<'lua>, name: &str) -> (r: Result<mlua::Value<'lua>, mlua::Error>) {
    t.get::<_, mlua::Value>(name)
}

/// Relies on mlua's `Lua::set_memory_limit`: removes the allocation limit, so
/// the interpreter's own bookkeeping can grow while values are read out.
#[verifier::external_body]
fn lift_memory_limit(lua: &mlua::Lua) -> (r: Result<usize, mlua::Error>) {
    lua.set_memory_limit(0)
}

/// Copies `v` into a plain tree, opening at most `depth` levels of tables and
/// spending one unit of `budget` per value. Pairs are taken one at a time.
fn walk<'lua>(v: mlua::Value<'lua>, depth: usize, budget: &mut usize) -> (r: Result<LuaVal, ReadError>)
    ensures
        *final(budget) <= *old(budget),
        !(r matches Err(ReadError::NotData)),
    decreases depth,
{
    if *budget == 0 {
        return Err(ReadError::TooManyValues);
    }
    *budget = *budget - 1;
    let t = match classify(v) {
        LuaItem::Leaf(x) => {
            return Ok(x);
        },
        LuaItem::Table(t) => t,
    };
    if depth == 0 {
        return Err(ReadError::TooDeep);
    }
    let mut it = pairs_of(&t);
    let mut out: Vec<(LuaVal, LuaVal)> = Vec::new();
    loop
        invariant
            *budget <= *old(budget),
            depth > 0,
        decreases *budget,
    {
        if *budget == 0 {
            return Err(ReadError::TooManyValues);
        }
        *budget = *budget - 1;
        let (k, x) = match next_pair(&mut it) {
            None => {
                break;
            },
            Some(Err(e)) => {
                return Err(ReadError::Eval(e));
            },
            Some(Ok(p)) => p,
        };
        let kv = match walk(k, depth - 1, budget) {
            Ok(a) => a,
            Err(e) => {
                return Err(e);
            },
        };
        let xv = match walk(x, depth - 1, budget) {
            Ok(a) => a,
            Err(e) => {
                return Err(e);
            },
        };
        out.push((kv, xv));
    }
    Ok(LuaVal::Table(out))
}

/// `v` as a leaf, with a table standing as an empty one: enough to tell a
/// death entry from anything else without opening it.
fn shallow<'lua>(v: mlua::Value<'lua>) -> (r: LuaVal) {
    match classify(v) {
        LuaItem::Leaf(x) => x,
        LuaItem::Table(_) => LuaVal::Table(Vec::new()),
    }
}

/// Reads the database table `db`: its `deaths` pairs are taken one at a time
/// and kept shallow, and only the entry with the greatest key is copied whole.
/// The result has the same `deaths` member, the same keys and the same
/// latest entry as `db`.
fn read_db<'lua>(db: &mlua::Table<'lua>, budget: &mut usize) -> (r: Result<LuaVal, ReadError>)
    ensures
        !(r matches Err(ReadError::NotData)),
{
    let d = match table_field(db, "deaths") {
        Ok(d) => d,
        Err(e) => {
            return Err(ReadError::Eval(e));
        },
    };
    let deaths = match classify(d) {
        LuaItem::Leaf(x) => {
            return Ok(LuaVal::Table(vec![(LuaVal::Str("deaths".to_owned()), x)]));
        },
        LuaItem::Table(t) => t,
    };
    let mut it = pairs_of(&deaths);
    let mut pairs: Vec<(LuaVal, LuaVal)> = Vec::new();
    loop
        decreases *budget,
    {
        if *budget == 0 {
            return Err(ReadError::TooManyValues);
        }
        *budget = *budget - 1;
        match next_pair(&mut it) {
            None => {
                break;
            },
            Some(Err(e)) => {
                return Err(ReadError::Eval(e));
            },
            Some(Ok((k, x))) => {
                let kv = shallow(k);
                let xv = shallow(x);
                pairs.push((kv, xv));
            },
        }
    }
    match latest_entry(&pairs) {
        Some(j) => {
            let key = match &pairs[j].0 {
                LuaVal::Int(k) => *k,
                _ => 0,
            };
            let e = match table_at(&deaths, key) {
                Ok(e) => e,
                Err(e) => {
                    return Err(ReadError::Eval(e));
                },
            };
            let entry = match walk(e, MAX_LUA_DEPTH, budget) {
                Ok(x) => x,
                Err(e) => {
                    return Err(e);
                },
            };
            pairs.set(j, (LuaVal::Int(key), entry));
        },
        None => {},
    }
    Ok(LuaVal::Table(vec![(LuaVal::Str("deaths".to_owned()), LuaVal::Table(pairs))]))
}

/// Runs the saved-variables file `content` and returns the latest death of
/// its database, or none when the file holds no death. Text that is not a
/// data script is refused before it reaches the interpreter.
pub fn parse_latest_death_from_sv(content: &str) -> (r: Result<Option<DeathRecord>, ReadError>)
    ensures
        (r matches Err(ReadError::NotData)) <==> !is_data_script(content.spec_bytes()),
        r matches Ok(x) ==> exists|db: LuaVal| latest_of(db, x),
{
    if !is_data_script_text(content) {
        return Err(ReadError::NotData);
    }
    let lua = match sandbox(LUA_MEMORY_LIMIT) {
        Ok(l) => l,
        Err(e) => {
            return Err(ReadError::Eval(e));
        },
    };
    match run_chunk(&lua, content) {
        Ok(()) => {},
        Err(e) => {
            return Err(ReadError::Eval(e));
        },
    }
    match lift_memory_limit(&lua) {
        Ok(_) => {},
        Err(e) => {
            return Err(ReadError::Eval(e));
        },
    }
    let v = match global(&lua, "DeathLoggerDB") {
        Ok(v) => v,
        Err(e) => {
            return Err(ReadError::Eval(e));
        },
    };
    let db = match classify(v) {
        LuaItem::Leaf(x) => x,
        LuaItem::Table(t) => {
            let mut budget: usize = MAX_LUA_VALUES;
            match read_db(&t, &mut budget) {
                Ok(db) => db,
                Err(e) => {
                    return Err(e);
                },
            }
        },
    };
    Ok(latest_death(&db))
}

} // verus!
