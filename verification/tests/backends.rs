use std::collections::HashMap;
use std::rc::Rc;

use grindlang::api::{
    typed_result, Bits, BuildError, CallError, Engine, FromValue, HostType, IntoValue,
};
use grindlang::ast::BinOp;
use grindlang::codegen::rt::{Called, Handle};
use grindlang::codegen::translate::{End, Float1, Float2, Inst, Relation, Shim};
use grindlang::codegen::{
    plan_module, trampoline_loads, FnPlan, JitModule, ModulePlan, Target,
};
use grindlang::interp::Interpreter;
use grindlang::ir::vm::{Progress, Vm};
use grindlang::names::NameMap;
use grindlang::numeral::Numeral;
use grindlang::runtime::eval::{display, MathOp, Piece, Reply, Request};
use grindlang::types::Fields;
use grindlang::value::Heap;
use grindlang::{
    FnType, Module, Program, Resolution, ResolveConfig, RunError, Type, TypeConfig, Value,
};

// ---- what the host computes ---------------------------------------------------------

fn numeral(n: &Numeral) -> f64 {
    match n {
        Numeral::Decimal(text) => text.parse().unwrap(),
        Numeral::Hex { whole, frac, exp } => {
            let mut value = 0.0;
            for d in whole {
                value = value * 16.0 + *d as f64;
            }
            let mut scale = 1.0 / 16.0;
            for d in frac {
                value += *d as f64 * scale;
                scale /= 16.0;
            }
            let factor = if *exp >= 0 { 2.0 } else { 0.5 };
            for _ in 0..exp.unsigned_abs().min(2100) {
                value *= factor;
            }
            value
        }
    }
}

fn num_to_string(n: f64) -> String {
    if n.fract() == 0.0 && n.is_finite() && n.abs() < 1e15 {
        format!("{}", n as i64)
    } else {
        format!("{n}")
    }
}

fn arith(op: BinOp, a: f64, b: f64) -> f64 {
    match op {
        BinOp::Add => a + b,
        BinOp::Sub => a - b,
        BinOp::Mul => a * b,
        BinOp::Div => a / b,
        BinOp::FloorDiv => (a / b).floor(),
        BinOp::Mod => a - (a / b).floor() * b,
        BinOp::Pow => a.powf(b),
        other => panic!("no arithmetic: {other:?}"),
    }
}

fn spell(p: &Piece) -> Option<String> {
    match p {
        Piece::Text(_) => None,
        Piece::General(b) => Some(num_to_string(f64::from_bits(*b))),
        Piece::Fixed(b) => Some(format!("{:.6}", f64::from_bits(*b))),
    }
}

/// The answer to everything but a host call.
fn compute(q: &Request) -> Reply {
    match q {
        Request::Numeral(n) => Reply::Number(numeral(n).to_bits()),
        Request::Arith(op, a, b) => {
            Reply::Number(arith(*op, f64::from_bits(*a), f64::from_bits(*b)).to_bits())
        }
        Request::Count(n) => Reply::Number((*n as f64).to_bits()),
        Request::Math(op, a, b) => {
            let (a, b) = (f64::from_bits(*a), f64::from_bits(*b));
            let r = match op {
                MathOp::Floor => a.floor(),
                MathOp::Ceil => a.ceil(),
                MathOp::Abs => a.abs(),
                MathOp::Sqrt => a.sqrt(),
                MathOp::Min => a.min(b),
                MathOp::Max => a.max(b),
                MathOp::Pow => a.powf(b),
            };
            Reply::Number(r.to_bits())
        }
        Request::Show(ps) => Reply::Texts(ps.iter().filter_map(spell).collect()),
        Request::Parse(s) => Reply::Maybe(s.trim().parse::<f64>().ok().map(f64::to_bits)),
        Request::Host(name, _) => panic!("host call of `{name}`"),
    }
}

fn show(heap: &Heap, v: &Value) -> String {
    let mut ps = Vec::new();
    display(heap, v, &mut ps).unwrap();
    ps.iter()
        .map(|p| match p {
            Piece::Text(s) => s.clone(),
            other => spell(other).unwrap(),
        })
        .collect()
}

// ---- values of the tests ------------------------------------------------------------

#[derive(Clone, Debug, PartialEq)]
enum V {
    Nil,
    Bool(bool),
    Num(f64),
    Str(String),
    Arr(Vec<V>),
    Tab(Vec<(String, V)>),
    Other,
}

fn s(text: &str) -> V {
    V::Str(text.to_string())
}

fn put(heap: &mut Heap, v: &V) -> Value {
    match v {
        V::Nil | V::Other => Value::Nil,
        V::Bool(b) => Value::Bool(*b),
        V::Num(n) => Value::Number(n.to_bits()),
        V::Str(t) => Value::string(t),
        V::Arr(items) => {
            let vs = items.iter().map(|x| put(heap, x)).collect();
            heap.array(vs)
        }
        V::Tab(entries) => {
            let mut t = NameMap::new();
            for (k, x) in entries {
                let v = put(heap, x);
                t.insert(k.clone(), v);
            }
            heap.table(t)
        }
    }
}

fn get(heap: &Heap, v: &Value) -> V {
    match v {
        Value::Nil => V::Nil,
        Value::Bool(b) => V::Bool(*b),
        Value::Number(b) => V::Num(f64::from_bits(*b)),
        Value::Str(t) => V::Str(t.clone()),
        Value::Array(_) => V::Arr(
            heap.as_array(v).unwrap().iter().map(|x| get(heap, x)).collect(),
        ),
        Value::Table(_) => {
            let t = heap.as_table(v).unwrap();
            V::Tab((0..t.len()).map(|i| (t.key(i).clone(), get(heap, t.value(i)))).collect())
        }
        _ => V::Other,
    }
}

type Host = Box<dyn Fn(&[V]) -> Result<V, RunError>>;

/// One way to run a module.
trait Backend {
    fn heap(&self) -> &Heap;
    fn put(&mut self, v: &V) -> Value;
    fn call_raw(&mut self, name: &str, args: Vec<Value>) -> Result<Value, RunError>;
    fn call_value(&mut self, callee: Value, args: Vec<Value>) -> Result<Value, RunError>;
    fn set_host(&mut self, name: &str, f: Host);
    fn set_memory_value(&mut self, name: &str, v: Value);
    fn memory_value(&self, name: &str) -> Option<Value>;

    fn call(&mut self, name: &str, args: &[V]) -> Result<V, RunError> {
        let args = args.iter().map(|a| self.put(a)).collect();
        let v = self.call_raw(name, args)?;
        Ok(get(self.heap(), &v))
    }
    fn call_show(&mut self, name: &str, args: &[V]) -> Result<String, RunError> {
        let args = args.iter().map(|a| self.put(a)).collect();
        let v = self.call_raw(name, args)?;
        Ok(show(self.heap(), &v))
    }
    fn set_memory(&mut self, name: &str, v: &V) {
        let v = self.put(v);
        self.set_memory_value(name, v);
    }
    fn memory(&self, name: &str) -> Option<String> {
        self.memory_value(name).map(|v| show(self.heap(), &v))
    }
}

// ---- the interpreter ----------------------------------------------------------------

struct Ast {
    it: Interpreter<'static>,
    hosts: HashMap<String, Host>,
}

impl Ast {
    fn new(module: &'static Module, res: &'static Resolution) -> Ast {
        let mut a = Ast { it: Interpreter::new(module, res), hosts: HashMap::new() };
        a.drive(Progress::Running).expect("initialisation");
        a
    }

    fn drive(&mut self, mut p: Progress) -> Result<Value, RunError> {
        loop {
            p = match p {
                Progress::Running => self.it.step(),
                Progress::Done(r) => return r,
                Progress::Ask => {
                    let (host, reply) = match self.it.request().unwrap() {
                        Request::Host(name, args) => {
                            let vs: Vec<V> =
                                args.iter().map(|a| get(self.it.heap(), a)).collect();
                            (Some(self.hosts[name](&vs)), None)
                        }
                        q => (None, Some(compute(q))),
                    };
                    let reply = match (host, reply) {
                        (Some(Ok(v)), _) => Reply::Value(self.put(&v)),
                        (Some(Err(e)), _) => Reply::Failed(e),
                        (_, Some(r)) => r,
                        _ => unreachable!(),
                    };
                    self.it.resume(reply)
                }
            }
        }
    }
}

impl Backend for Ast {
    fn heap(&self) -> &Heap {
        self.it.heap()
    }
    fn put(&mut self, v: &V) -> Value {
        match v {
            V::Arr(items) => {
                let vs = items.iter().map(|x| self.put(x)).collect();
                self.it.new_array(vs)
            }
            V::Tab(entries) => {
                let mut t = NameMap::new();
                for (k, x) in entries {
                    let v = self.put(x);
                    t.insert(k.clone(), v);
                }
                self.it.new_table(t)
            }
            other => put(&mut Heap::new(), other),
        }
    }
    fn call_raw(&mut self, name: &str, args: Vec<Value>) -> Result<Value, RunError> {
        let p = self.it.call(name, args);
        self.drive(p)
    }
    fn call_value(&mut self, callee: Value, args: Vec<Value>) -> Result<Value, RunError> {
        let p = self.it.call_value_public(callee, args);
        self.drive(p)
    }
    fn set_host(&mut self, name: &str, f: Host) {
        self.it.set_host_function(name);
        self.hosts.insert(name.to_string(), f);
    }
    fn set_memory_value(&mut self, name: &str, v: Value) {
        self.it.set_memory(name, v);
    }
    fn memory_value(&self, name: &str) -> Option<Value> {
        self.it.memory(name)
    }
}

// ---- the machine of the intermediate representation ---------------------------------

struct Ir {
    vm: Vm<'static>,
    hosts: HashMap<String, Host>,
}

impl Ir {
    fn new(program: &'static Program) -> Ir {
        Ir { vm: Vm::new(program), hosts: HashMap::new() }
    }

    fn drive(&mut self, mut p: Progress) -> Result<Value, RunError> {
        loop {
            p = match p {
                Progress::Running => self.vm.step(),
                Progress::Done(r) => return r,
                Progress::Ask => {
                    let (host, reply) = match self.vm.request().unwrap() {
                        Request::Host(name, args) => {
                            let vs: Vec<V> =
                                args.iter().map(|a| get(self.vm.heap(), a)).collect();
                            (Some(self.hosts[name](&vs)), None)
                        }
                        q => (None, Some(compute(q))),
                    };
                    let reply = match (host, reply) {
                        (Some(Ok(v)), _) => Reply::Value(self.put(&v)),
                        (Some(Err(e)), _) => Reply::Failed(e),
                        (_, Some(r)) => r,
                        _ => unreachable!(),
                    };
                    self.vm.resume(reply)
                }
            }
        }
    }
}

impl Backend for Ir {
    fn heap(&self) -> &Heap {
        self.vm.heap()
    }
    fn put(&mut self, v: &V) -> Value {
        match v {
            V::Arr(items) => {
                let vs = items.iter().map(|x| self.put(x)).collect();
                self.vm.new_array(vs)
            }
            V::Tab(entries) => {
                let mut t = NameMap::new();
                for (k, x) in entries {
                    let v = self.put(x);
                    t.insert(k.clone(), v);
                }
                self.vm.new_table(t)
            }
            other => put(&mut Heap::new(), other),
        }
    }
    fn call_raw(&mut self, name: &str, args: Vec<Value>) -> Result<Value, RunError> {
        let p = self.vm.call(name, args);
        self.drive(p)
    }
    fn call_value(&mut self, callee: Value, args: Vec<Value>) -> Result<Value, RunError> {
        let p = self.vm.call_value(callee, args);
        self.drive(p)
    }
    fn set_host(&mut self, name: &str, f: Host) {
        self.vm.set_host_function(name);
        self.hosts.insert(name.to_string(), f);
    }
    fn set_memory_value(&mut self, name: &str, v: Value) {
        self.vm.set_memory(name, v);
    }
    fn memory_value(&self, name: &str) -> Option<Value> {
        self.vm.memory(name)
    }
}

// ---- compiled code, executed one machine instruction at a time ----------------------

struct Jit {
    plan: Rc<ModulePlan>,
    constants: Vec<String>,
    jm: JitModule,
    hosts: HashMap<String, Host>,
    /// Whether the number that a host function returns stands for a closure.
    /// What the host function `borrow` hands to the script.
    borrowed: Option<Value>,
}

fn relates(r: Relation, less: bool, equal: bool, greater: bool) -> u64 {
    let b = match r {
        Relation::Equal => equal,
        Relation::Less => less,
        Relation::LessEqual => less || equal,
        Relation::Greater => greater,
        Relation::GreaterEqual => greater || equal,
    };
    b as u64
}

impl Jit {
    fn new(program: &Program, origin: u64) -> Jit {
        let (plan, pools) = plan_module(program).expect("plan");
        let constants = pools.constants.clone();
        let (mine, _) = plan_module(program).expect("plan");
        let mut addrs = NameMap::new();
        for i in 0..plan.functions.len() {
            addrs.insert(plan.functions.key(i).clone(), (i + 1) as u64);
        }
        Jit {
            plan: Rc::new(mine),
            constants,
            jm: JitModule::new(plan, pools, addrs, origin),
            hosts: HashMap::new(),
            borrowed: None,
        }
    }

    /// Run the machine code of a function.
    fn exec(&mut self, f: &FnPlan, args: &[u64]) -> u64 {
        let mut vars: HashMap<u32, u64> = HashMap::new();
        for (id, w) in f.bound.iter().zip(args) {
            vars.insert(*id, *w);
        }
        let mut regs: Vec<u64> = vec![0; f.code.insts.len()];
        let mut stacks: HashMap<u64, Vec<u64>> = HashMap::new();
        let mut block = f.entry as usize;
        loop {
            let start = if block == 0 { 0 } else { f.code.blocks[block - 1].end };
            let b = &f.code.blocks[block];
            for k in start..b.end {
                let num = |r: &usize| f64::from_bits(regs[*r]);
                regs[k] = match &f.code.insts[k] {
                    Inst::Int(_, n) => *n as u64,
                    Inst::Float(n) => numeral(n).to_bits(),
                    Inst::GetVar(id) => vars.get(id).copied().unwrap_or(0),
                    Inst::SetVar(id, r) => {
                        vars.insert(*id, regs[*r]);
                        0
                    }
                    Inst::Float1(op, a) => match op {
                        Float1::Neg => -num(a),
                        Float1::Floor => num(a).floor(),
                        Float1::Ceil => num(a).ceil(),
                        Float1::Abs => num(a).abs(),
                        Float1::Sqrt => num(a).sqrt(),
                    }
                    .to_bits(),
                    Inst::Float2(op, a, b) => match op {
                        Float2::Add => num(a) + num(b),
                        Float2::Sub => num(a) - num(b),
                        Float2::Mul => num(a) * num(b),
                        Float2::Div => num(a) / num(b),
                    }
                    .to_bits(),
                    Inst::FloatTest(r, a, b) => {
                        let (x, y) = (num(a), num(b));
                        relates(*r, x < y, x == y, x > y)
                    }
                    Inst::IntTest(r, a, n) => {
                        let x = regs[*a] as i64;
                        relates(*r, x < *n, x == *n, x > *n)
                    }
                    Inst::IntEqual(a, b) => (regs[*a] == regs[*b]) as u64,
                    Inst::Stack(rs) => {
                        let at = k as u64 + 1;
                        stacks.insert(at, rs.iter().map(|r| regs[*r]).collect());
                        at
                    }
                    Inst::Call(shim, rs) => {
                        let ws: Vec<u64> = rs.iter().map(|r| regs[*r]).collect();
                        self.shim(*shim, &ws, &stacks)
                    }
                    Inst::CallScript(name, rs) => {
                        let ws: Vec<u64> = rs.iter().map(|r| regs[*r]).collect();
                        let plan = self.plan.clone();
                        self.exec(plan.functions.get(name).unwrap(), &ws)
                    }
                    Inst::CallConst(name) => {
                        let plan = self.plan.clone();
                        self.exec(plan.constants.get(name).unwrap(), &[])
                    }
                    Inst::Guard(r) => {
                        if regs[*r] != 0 {
                            return 0;
                        }
                        0
                    }
                    Inst::CallClosure { addr, env, args, .. } => {
                        let mut ws = vec![regs[*env]];
                        ws.extend(args.iter().map(|r| regs[*r]));
                        let plan = self.plan.clone();
                        let i = regs[*addr] as usize - 1;
                        self.exec(plan.functions.value(i), &ws)
                    }
                };
            }
            match b.term {
                End::Return(r) => return regs[r],
                End::ReturnDefault => return 0,
                End::Jump(t) => block = t as usize,
                End::JumpBack(r, t) => {
                    if regs[r] != 0 {
                        return 0;
                    }
                    block = t as usize
                }
                End::Branch(r, t, e) => block = if regs[r] & 0xff != 0 { t } else { e } as usize,
                End::Trap => panic!("trap"),
            }
        }
    }

    fn host(&mut self, name: &str, args: &[Value]) -> Result<Value, RunError> {
        let vs: Vec<V> = args.iter().map(|a| get(self.heap(), a)).collect();
        match self.hosts[name](&vs)? {
            V::Num(_) if self.borrowed.is_some() => Ok(self.borrowed.as_ref().unwrap().dup()),
            v => Ok(self.put(&v)),
        }
    }

    fn called(&mut self, c: Called) -> Handle {
        match c {
            Called::Handle(h) => h,
            Called::Ask(q) => self.jm.ctx_mut().answered(&q, compute(&q)),
        }
    }

    fn shim(&mut self, shim: Shim, ws: &[u64], stacks: &HashMap<u64, Vec<u64>>) -> u64 {
        let ctx = self.jm.ctx_mut();
        let words = |base: u64| stacks.get(&base).cloned().unwrap_or_default();
        match shim {
            Shim::BoxNumber => ctx.box_number(ws[0]),
            Shim::BoxBool => ctx.box_bool(ws[0] & 0xff != 0),
            Shim::UnboxNumber => ctx.unbox_number(ws[0]),
            Shim::UnboxBool => ctx.unbox_bool(ws[0]) as u64,
            Shim::ConstString => ctx.const_string(ws[0] as u32),
            Shim::MemoryRef => ctx.memory_ref(ws[0] as u32),
            Shim::NamespaceField => ctx.namespace_field(ws[0] as u32),
            Shim::ArrayNew => ctx.array_new(),
            Shim::ArrayPush => {
                ctx.array_push(ws[0], ws[1]);
                0
            }
            Shim::TableNew => ctx.table_new(),
            Shim::TableSet | Shim::MapSet => {
                ctx.table_set(ws[0], ws[1], ws[2]);
                0
            }
            Shim::ArrayGet => ctx.array_get(ws[0], ws[1]),
            Shim::ArraySet => match ctx.array_set(ws[0], ws[1], ws[2]) {
                Some(h) => h,
                None => ctx.bad_index(&num_to_string(f64::from_bits(ws[1]))),
            },
            Shim::MapGet => ctx.map_get(ws[0], ws[1]),
            Shim::FieldGet => ctx.field_get(ws[0], ws[1] as u32),
            Shim::FieldSet => {
                ctx.field_set(ws[0], ws[1] as u32, ws[2]);
                0
            }
            Shim::MapKeys => ctx.map_keys(ws[0]),
            Shim::Len => (ctx.len_of(ws[0]) as f64).to_bits(),
            Shim::Concat => ctx.concat(ws[0], ws[1]),
            Shim::StrOrder => ctx.str_order(ws[0], ws[1]) as i64 as u64,
            Shim::ValueEq => ctx.values_equal(ws[0], ws[1]) as u64,
            Shim::Truthy => ctx.is_truthy(ws[0]) as u64,
            Shim::Pow => f64::from_bits(ws[0]).powf(f64::from_bits(ws[1])).to_bits(),
            Shim::Errored => ctx.errored() as u64,
            Shim::CheckOrder => {
                ctx.check_order(ws[0], ws[1]);
                0
            }
            Shim::CallHost => match ctx.call_host(ws[0] as u32, &words(ws[1])) {
                Some((name, args)) => {
                    let r = self.host(&name, &args);
                    self.jm.ctx_mut().host_result(r)
                }
                None => grindlang::codegen::rt::ERR,
            },
            Shim::CallBuiltinValue => {
                let c = ctx.call_builtin_value(ws[0] as u32, &words(ws[1]));
                self.called(c)
            }
            Shim::CallBuiltinMember => {
                let c = ctx.call_builtin_member(ws[0] as u32, &words(ws[1]));
                self.called(c)
            }
            Shim::CellNew => ctx.cell_new(ws[0]),
            Shim::CellGet => ctx.cell_get(ws[0]),
            Shim::CellSet => {
                ctx.cell_set(ws[0], ws[1]);
                0
            }
            Shim::ClosureNew => ctx.closure_new(ws[0] as u32, &words(ws[1])),
            Shim::ClosureEnvGet => ctx.closure_env_get(ws[0], ws[1] as u32),
            Shim::ClosureCodeAddr => ctx.closure_code_addr(ws[0]),
            Shim::ConstRef => {
                let id = ws[0] as u32;
                if let Some(h) = ctx.const_cached(id) {
                    return h;
                }
                let mark = ctx.const_mark();
                let plan = self.plan.clone();
                let name = self.constants[id as usize].clone();
                let h = self.exec(plan.constants.get(&name).unwrap(), &[]);
                self.jm.ctx_mut().const_store(id, mark, h);
                h
            }
        }
    }

    fn enter(
        &mut self,
        start: Result<grindlang::codegen::Invocation, RunError>,
    ) -> Result<Value, RunError> {
        let i = start?;
        let plan = self.plan.clone();
        let (f, env) = match &i.target {
            Target::Direct(n) | Target::Function(n) => (plan.functions.get(n).unwrap(), None),
            Target::Const(n) => (plan.constants.get(n).unwrap(), None),
            Target::Closure(n, h) => (plan.functions.get(n).unwrap(), Some(*h)),
        };
        let mut args: Vec<u64> = env.into_iter().collect();
        for (k, _) in trampoline_loads(&f.visible) {
            args.push(i.args[k]);
        }
        let bits = self.exec(f, &args);
        self.jm.finish(bits, i.ret)
    }
}

impl Backend for Jit {
    fn heap(&self) -> &Heap {
        self.jm.ctx().heap()
    }
    fn put(&mut self, v: &V) -> Value {
        put(self.jm.ctx_mut().heap_mut(), v)
    }
    fn call_raw(&mut self, name: &str, args: Vec<Value>) -> Result<Value, RunError> {
        let start = self.jm.begin(name, &args);
        self.enter(start)
    }
    fn call_value(&mut self, callee: Value, args: Vec<Value>) -> Result<Value, RunError> {
        let start = self.jm.begin_value(callee, &args);
        self.enter(start)
    }
    fn set_host(&mut self, name: &str, f: Host) {
        self.jm.set_host_function(name);
        self.hosts.insert(name.to_string(), f);
    }
    fn set_memory_value(&mut self, name: &str, v: Value) {
        self.jm.set_memory(name, v);
    }
    fn memory_value(&self, name: &str) -> Option<Value> {
        self.jm.memory(name)
    }
}

// ---- building -----------------------------------------------------------------------

fn triple(src: &str, cfg: &TypeConfig) -> (Ast, Ir, Jit) {
    let (module, res, info) = grindlang::analyze(src, cfg).expect("analyze");
    let module: &'static Module = Box::leak(Box::new(module));
    let res: &'static Resolution = Box::leak(Box::new(res));
    let program: &'static Program =
        Box::leak(Box::new(grindlang::ir::lower(module, res, &info, cfg).expect("lower")));
    grindlang::ir::verify(program).expect("verify");
    (Ast::new(module, res), Ir::new(program), Jit::new(program, 1))
}

fn assert_same(src: &str, func: &str, args: &[V]) {
    let (mut ast, mut ir, mut jit) = triple(src, &TypeConfig::default());
    let a = ast.call_show(func, args);
    let b = ir.call_show(func, args);
    let c = jit.call_show(func, args);
    match (a, b, c) {
        (Ok(a), Ok(b), Ok(c)) => {
            assert_eq!(a, b, "AST vs IR mismatch for `{func}` in:\n{src}");
            assert_eq!(b, c, "IR vs JIT mismatch for `{func}` in:\n{src}");
        }
        (Err(_), Err(_), Err(_)) => {}
        (a, b, c) => panic!("disagreement for `{func}`: {a:?} / {b:?} / {c:?}\n{src}"),
    }
}

fn host_config(name: &str, params: Vec<Type>, ret: Type) -> TypeConfig {
    let mut cfg = TypeConfig::default();
    cfg.host_functions.insert(name.to_string(), FnType { params, ret: Box::new(ret) });
    cfg
}

// ---- the interpreter ------------------------------------------------------------

fn interp(src: &str, cfg: &ResolveConfig) -> Ast {
    let (module, res) = grindlang::check(src, cfg).expect("check");
    Ast::new(Box::leak(Box::new(module)), Box::leak(Box::new(res)))
}

fn run_call(src: &str, func: &str, args: &[V]) -> V {
    interp(src, &ResolveConfig::default()).call(func, args).unwrap()
}

fn number(v: &V) -> f64 {
    match v {
        V::Num(n) => *n,
        other => panic!("expected a number, got {other:?}"),
    }
}

#[test]
fn calls_a_simple_function() {
    let v = run_call("function add(a, b) return a + b end", "add", &[V::Num(2.0), V::Num(3.0)]);
    assert_eq!(v, V::Num(5.0));
}

#[test]
fn recursion_with_loop_and_branch() {
    let src = "function fact(n)\n\
                 local acc = 1\n\
                 local i = 2\n\
                 while i <= n do\n\
                   acc = acc * i\n\
                   i = i + 1\n\
                 end\n\
                 return acc\n\
               end";
    let v = run_call(src, "fact", &[V::Num(5.0)]);
    assert_eq!(v, V::Num(120.0));
}

#[test]
fn interp_mutual_recursion() {
    let src = "function even(n)\n\
                 if n == 0 then return true end\n\
                 return odd(n - 1)\n\
               end\n\
               function odd(n)\n\
                 if n == 0 then return false end\n\
                 return even(n - 1)\n\
               end";
    let mut it = interp(src, &ResolveConfig::default());
    assert_eq!(it.call("even", &[V::Num(10.0)]).unwrap(), V::Bool(true));
    assert_eq!(it.call("even", &[V::Num(7.0)]).unwrap(), V::Bool(false));
}

#[test]
fn closure_captures_upvalue() {
    let src = "function make(base)\n\
                 local add = function(x) return x + base end\n\
                 return add(10)\n\
               end";
    let v = run_call(src, "make", &[V::Num(5.0)]);
    assert_eq!(v, V::Num(15.0));
}

#[test]
fn closure_escapes_its_defining_frame() {
    let src = "function make_adder(n)\n\
                 return function(x) return x + n end\n\
               end\n\
               function use()\n\
                 local add5 = make_adder(5)\n\
                 return add5(10)\n\
               end";
    let v = run_call(src, "use", &[]);
    assert_eq!(v, V::Num(15.0));
}

#[test]
fn closure_writes_propagate_through_shared_upvalue() {
    let src = "function counter()\n\
                 local n = 0\n\
                 local inc = function() n = n + 1 return n end\n\
                 local a = inc()\n\
                 local b = inc()\n\
                 return a + b\n\
               end";
    let v = run_call(src, "counter", &[]);
    assert_eq!(v, V::Num(3.0));
}

#[test]
fn generic_for_sums_array() {
    let src = "function total(xs)\n\
                 local s = 0\n\
                 for _, v in ipairs(xs) do\n\
                   s = s + v\n\
                 end\n\
                 return s\n\
               end";
    let v = run_call(src, "total", &[V::Arr(vec![V::Num(1.0), V::Num(2.0), V::Num(3.0)])]);
    assert_eq!(v, V::Num(6.0));
}

#[test]
fn array_append_idiom() {
    let src = "function grow()\n\
                 local out = { 1, 2 }\n\
                 out[#out + 1] = 3\n\
                 return out\n\
               end";
    let v = run_call(src, "grow", &[]);
    assert_eq!(v, V::Arr(vec![V::Num(1.0), V::Num(2.0), V::Num(3.0)]));
}

#[test]
fn numeric_for_with_step() {
    let src = "function countdown(n)\n\
                 local s = 0\n\
                 for i = n, 1, -1 do\n\
                   s = s + i\n\
                 end\n\
                 return s\n\
               end";
    let v = run_call(src, "countdown", &[V::Num(4.0)]);
    assert_eq!(v, V::Num(10.0));
}

#[test]
fn break_exits_loop() {
    let src = "function firsthit(xs)\n\
                 local found = 0\n\
                 for _, v in ipairs(xs) do\n\
                   if v > 2 then\n\
                     found = v\n\
                     break\n\
                   end\n\
                 end\n\
                 return found\n\
               end";
    let v = run_call(src, "firsthit", &[V::Arr(vec![V::Num(1.0), V::Num(3.0), V::Num(5.0)])]);
    assert_eq!(v, V::Num(3.0));
}

#[test]
fn string_concat_and_builtins() {
    let src = "function greet(name)\n\
                 return \"hi \" .. string.upper(name)\n\
               end";
    let v = run_call(src, "greet", &[s("bob")]);
    assert_eq!(v, s("hi BOB"));
}

#[test]
fn math_floor_and_const() {
    let src = "K = 10\n\
               function f(x) return math.floor(x) + K end";
    let v = run_call(src, "f", &[V::Num(3.7)]);
    assert_eq!(v, V::Num(13.0));
}

#[test]
fn tostring_formats_integers() {
    let src = "function f(n) return tostring(n) end";
    let v = run_call(src, "f", &[V::Num(42.0)]);
    assert_eq!(v, s("42"));
}

#[test]
fn logical_operators_short_circuit() {
    let src = "function f(a, b) return a or b end";
    let v = run_call(src, "f", &[V::Bool(false), V::Bool(true)]);
    assert_eq!(v, V::Bool(true));
}

#[test]
fn host_function_is_called() {
    let cfg = ResolveConfig { host_functions: vec!["roll".into()], memory: vec![] };
    let mut it = interp("function f(n) return roll(n) + 1 end", &cfg);
    it.set_host("roll", Box::new(|args| Ok(V::Num(number(&args[0]) * 2.0))));
    assert_eq!(it.call("f", &[V::Num(3.0)]).unwrap(), V::Num(7.0));
}

#[test]
fn host_function_error_propagates() {
    let cfg = ResolveConfig { host_functions: vec!["boom".into()], memory: vec![] };
    let mut it = interp("function f() return boom() end", &cfg);
    it.set_host("boom", Box::new(|_| Err(RunError::Host("kaboom".into()))));
    let err = it.call("f", &[]).unwrap_err();
    assert!(matches!(err, RunError::Host(msg) if msg == "kaboom"));
}

#[test]
fn memory_persists_across_calls() {
    let src = "function spend(n)\n\
               if mem.gold >= n then\n\
                 mem.gold = mem.gold - n\n\
                 return true\n\
               end\n\
               return false\n\
             end";
    let mut it = interp(src, &ResolveConfig::with_memory("mem"));
    it.set_memory("mem", &V::Tab(vec![("gold".to_string(), V::Num(100.0))]));
    assert_eq!(it.call("spend", &[V::Num(30.0)]).unwrap(), V::Bool(true));
    assert_eq!(it.call("spend", &[V::Num(50.0)]).unwrap(), V::Bool(true));
    assert_eq!(it.call("spend", &[V::Num(30.0)]).unwrap(), V::Bool(false));
    let mem = it.memory_value("mem").unwrap();
    assert_eq!(get(it.heap(), &it.heap().field(&mem, "gold")), V::Num(20.0));
}

#[test]
fn unknown_export_errors() {
    let mut it = interp("function a() return 1 end", &ResolveConfig::default());
    assert!(matches!(it.call("nope", &[]), Err(RunError::UnknownExport(_))));
}

#[test]
fn curated_export_renames() {
    let src = "function impl() return 7 end\n\
               return { run = impl }";
    let v = run_call(src, "run", &[]);
    assert_eq!(v, V::Num(7.0));
}

// ---- all backends agree ------------------------------------------------------------

#[test]
fn ir_differential_arithmetic_and_precedence() {
    assert_same(
        "function f(a, b) return a + b * 2 - 1 end",
        "f",
        &[V::Num(3.0), V::Num(4.0)],
    );
}

#[test]
fn floor_div_and_mod_and_pow() {
    assert_same(
        "function f(a, b) return a // b + a % b end",
        "f",
        &[V::Num(17.0), V::Num(5.0)],
    );
    assert_same(
        "function f(x) return x ^ 3 end",
        "f",
        &[V::Num(2.0)],
    );
}

#[test]
fn ir_differential_branches_and_comparison() {
    let src = "function classify(n)\n\
                 if n < 0 then return \"neg\" end\n\
                 if n == 0 then return \"zero\" end\n\
                 return \"pos\"\n\
               end";
    for n in [-5.0, 0.0, 9.0] {
        assert_same(src, "classify", &[V::Num(n)]);
    }
}

#[test]
fn ir_differential_while_loop_accumulation() {
    let src = "function fact(n)\n\
                 local acc = 1\n\
                 local i = 2\n\
                 while i <= n do\n\
                   acc = acc * i\n\
                   i = i + 1\n\
                 end\n\
                 return acc\n\
               end";
    for n in [0.0, 1.0, 5.0, 8.0] {
        assert_same(src, "fact", &[V::Num(n)]);
    }
}

#[test]
fn numeric_for_with_negative_step() {
    let src = "function countdown(n)\n\
                 local s = 0\n\
                 for i = n, 1, -1 do\n\
                   s = s + i\n\
                 end\n\
                 return s\n\
               end";
    for n in [0.0, 1.0, 6.0] {
        assert_same(src, "countdown", &[V::Num(n)]);
    }
}

#[test]
fn ir_differential_generic_for_ipairs() {
    let src = "function total(xs)\n\
                 local s = 0\n\
                 for _, v in ipairs(xs) do\n\
                   s = s + v\n\
                 end\n\
                 return s\n\
               end";
    let arr = V::Arr(vec![
        V::Num(2.0),
        V::Num(4.0),
        V::Num(6.0),
    ]);
    assert_same(src, "total", &[arr]);
}

#[test]
fn ir_differential_short_circuit_and_or() {
    // Operand types are pinned by the `==` comparisons, so `and`/`or` are well-typed.
    let and_src = "function f(a, b) return (a == true) and (b == true) end";
    let or_src = "function f(a, b) return (a == true) or (b == true) end";
    for a in [true, false] {
        for b in [true, false] {
            assert_same(and_src, "f", &[V::Bool(a), V::Bool(b)]);
            assert_same(or_src, "f", &[V::Bool(a), V::Bool(b)]);
        }
    }
}

#[test]
fn ir_differential_break_in_loop() {
    let src = "function firsthit(xs)\n\
                 local found = 0\n\
                 for _, v in ipairs(xs) do\n\
                   if v > 2 then\n\
                     found = v\n\
                     break\n\
                   end\n\
                 end\n\
                 return found\n\
               end";
    let arr = V::Arr(vec![
        V::Num(1.0),
        V::Num(3.0),
        V::Num(5.0),
    ]);
    assert_same(src, "firsthit", &[arr]);
}

#[test]
fn ir_differential_string_builtins_and_concat() {
    assert_same(
        "function greet(name) return \"hi \" .. string.upper(name) end",
        "greet",
        &[s("bob")],
    );
}

#[test]
fn ir_differential_math_builtins_and_const() {
    let src = "K = 10\nfunction f(x) return math.floor(x) + K end";
    assert_same(src, "f", &[V::Num(3.7)]);
}

#[test]
fn ir_differential_array_build_and_append() {
    let src = "function grow(n)\n\
                 local out = { 1 }\n\
                 out[#out + 1] = n\n\
                 return out\n\
               end";
    assert_same(src, "grow", &[V::Num(9.0)]);
}

#[test]
fn ir_differential_recursion() {
    let src = "function fib(n)\n\
                 if n < 2 then return n end\n\
                 return fib(n - 1) + fib(n - 2)\n\
               end";
    for n in [0.0, 1.0, 7.0, 10.0] {
        assert_same(src, "fib", &[V::Num(n)]);
    }
}


#[test]
fn jit_differential_arithmetic_and_precedence() {
    assert_same(
        "function f(a, b) return a + b * 2 - 1 end",
        "f",
        &[V::Num(3.0), V::Num(4.0)],
    );
}

#[test]
fn floor_div_mod_pow() {
    assert_same(
        "function f(a, b) return a // b + a % b end",
        "f",
        &[V::Num(17.0), V::Num(5.0)],
    );
    assert_same(
        "function f(x) return x ^ 3 end",
        "f",
        &[V::Num(2.0)],
    );
    // Negative operands exercise floor-div / mod sign behavior.
    assert_same(
        "function f(a, b) return a // b end",
        "f",
        &[V::Num(-7.0), V::Num(2.0)],
    );
    assert_same(
        "function f(a, b) return a % b end",
        "f",
        &[V::Num(-7.0), V::Num(3.0)],
    );
}

#[test]
fn jit_differential_branches_and_comparison() {
    let src = "function classify(n)\n\
                 if n < 0 then return \"neg\" end\n\
                 if n == 0 then return \"zero\" end\n\
                 return \"pos\"\n\
               end";
    for n in [-5.0, 0.0, 9.0] {
        assert_same(src, "classify", &[V::Num(n)]);
    }
}

#[test]
fn jit_differential_while_loop_accumulation() {
    let src = "function fact(n)\n\
                 local acc = 1\n\
                 local i = 2\n\
                 while i <= n do\n\
                   acc = acc * i\n\
                   i = i + 1\n\
                 end\n\
                 return acc\n\
               end";
    for n in [0.0, 1.0, 5.0, 8.0] {
        assert_same(src, "fact", &[V::Num(n)]);
    }
}

#[test]
fn numeric_for_negative_step() {
    let src = "function countdown(n)\n\
                 local s = 0\n\
                 for i = n, 1, -1 do\n\
                   s = s + i\n\
                 end\n\
                 return s\n\
               end";
    for n in [0.0, 1.0, 6.0] {
        assert_same(src, "countdown", &[V::Num(n)]);
    }
}

#[test]
fn jit_differential_generic_for_ipairs() {
    let src = "function total(xs)\n\
                 local s = 0\n\
                 for _, v in ipairs(xs) do\n\
                   s = s + v\n\
                 end\n\
                 return s\n\
               end";
    let arr = V::Arr(vec![
        V::Num(2.0),
        V::Num(4.0),
        V::Num(6.0),
    ]);
    assert_same(src, "total", &[arr]);
}

#[test]
fn jit_differential_short_circuit_and_or() {
    let and_src = "function f(a, b) return (a == true) and (b == true) end";
    let or_src = "function f(a, b) return (a == true) or (b == true) end";
    for a in [true, false] {
        for b in [true, false] {
            assert_same(and_src, "f", &[V::Bool(a), V::Bool(b)]);
            assert_same(or_src, "f", &[V::Bool(a), V::Bool(b)]);
        }
    }
}

#[test]
fn jit_differential_break_in_loop() {
    let src = "function firsthit(xs)\n\
                 local found = 0\n\
                 for _, v in ipairs(xs) do\n\
                   if v > 2 then\n\
                     found = v\n\
                     break\n\
                   end\n\
                 end\n\
                 return found\n\
               end";
    let arr = V::Arr(vec![
        V::Num(1.0),
        V::Num(3.0),
        V::Num(5.0),
    ]);
    assert_same(src, "firsthit", &[arr]);
}

#[test]
fn jit_differential_string_builtins_and_concat() {
    assert_same(
        "function greet(name) return \"hi \" .. string.upper(name) end",
        "greet",
        &[s("bob")],
    );
    assert_same(
        "function f(s) return string.sub(s, 2, 4) end",
        "f",
        &[s("grindlang")],
    );
    assert_same(
        "function f(s, p) return string.find(s, p) end",
        "f",
        &[s("hello"), s("ll")],
    );
}

#[test]
fn string_comparison() {
    // `string.upper` pins both params to `string`, so `<` is a string comparison (a bare
    // `a < b` would infer the params as numbers — numeric-by-default for relational ops).
    let src = "function f(a, b) return string.upper(a) < string.upper(b) end";
    assert_same(
        src,
        "f",
        &[s("apple"), s("banana")],
    );
    assert_same(src, "f", &[s("zebra"), s("ant")]);
    assert_same(src, "f", &[s("same"), s("same")]);
}

#[test]
fn jit_differential_math_builtins_and_const() {
    let src = "K = 10\nfunction f(x) return math.floor(x) + K end";
    assert_same(src, "f", &[V::Num(3.7)]);
    assert_same(
        "function f(a, b) return math.max(a, b) - math.min(a, b) end",
        "f",
        &[V::Num(5.0), V::Num(12.0)],
    );
}

#[test]
fn tostring_tonumber() {
    // `n + 0` pins `n` to `number` (a bare `tostring(n)` leaves it ambiguous → no inference).
    assert_same(
        "function f(n) return tostring(n + 0) end",
        "f",
        &[V::Num(42.0)],
    );
    // `tonumber` already requires a `string`, so `s` is pinned.
    assert_same(
        "function f(s) return tonumber(s) end",
        "f",
        &[s("3.5")],
    );
}

#[test]
fn jit_differential_array_build_and_append() {
    let src = "function grow(n)\n\
                 local out = { 1 }\n\
                 out[#out + 1] = n\n\
                 return out\n\
               end";
    assert_same(src, "grow", &[V::Num(9.0)]);
}

#[test]
fn record_literal_and_field() {
    let src = "function mk(h)\n\
                 local r = { hp = h, alive = h > 0 }\n\
                 return r.hp\n\
               end";
    assert_same(src, "mk", &[V::Num(7.0)]);
}

#[test]
fn jit_differential_recursion() {
    let src = "function fib(n)\n\
                 if n < 2 then return n end\n\
                 return fib(n - 1) + fib(n - 2)\n\
               end";
    for n in [0.0, 1.0, 7.0, 10.0] {
        assert_same(src, "fib", &[V::Num(n)]);
    }
}

#[test]
fn jit_differential_mutual_recursion() {
    let src = "function even(n)\n\
                 if n == 0 then return true end\n\
                 return odd(n - 1)\n\
               end\n\
               function odd(n)\n\
                 if n == 0 then return false end\n\
                 return even(n - 1)\n\
               end";
    for n in [0.0, 1.0, 6.0, 9.0] {
        assert_same(src, "even", &[V::Num(n)]);
    }
}

#[test]
fn curated_export() {
    let src = "function impl() return 7 end\nreturn { run = impl }";
    assert_same(src, "run", &[]);
}

fn tally() -> (&'static str, TypeConfig, V) {
    let src = "function tally()\n\
                 local sum = 0\n\
                 for k, v in pairs(mem) do\n\
                   sum = sum + v\n\
                 end\n\
                 mem.total = sum\n\
                 return sum\n\
               end";
    let mut cfg = TypeConfig::default();
    cfg.memory.insert("mem".to_string(), Type::map(Type::Number));
    let mem = V::Tab(vec![("a".to_string(), V::Num(10.0)), ("b".to_string(), V::Num(20.0))]);
    (src, cfg, mem)
}

#[test]
fn memory_and_pairs_match() {
    let (src, cfg, mem) = tally();
    let (mut ast, mut ir, _) = triple(src, &cfg);
    ast.set_memory("mem", &mem);
    ir.set_memory("mem", &mem);
    assert_eq!(ast.call_show("tally", &[]).unwrap(), ir.call_show("tally", &[]).unwrap());
    assert_eq!(ast.memory("mem").unwrap(), ir.memory("mem").unwrap());
}

#[test]
fn memory_and_pairs() {
    let (src, cfg, mem) = tally();
    let (mut ast, mut ir, mut jit) = triple(src, &cfg);
    ast.set_memory("mem", &mem);
    ir.set_memory("mem", &mem);
    jit.set_memory("mem", &mem);
    let a = ast.call_show("tally", &[]).unwrap();
    let b = ir.call_show("tally", &[]).unwrap();
    let c = jit.call_show("tally", &[]).unwrap();
    assert_eq!(a, b);
    assert_eq!(b, c);
    assert_eq!(c, "30");
    assert_eq!(ir.memory("mem").unwrap(), jit.memory("mem").unwrap());
    assert_eq!(jit.memory("mem").unwrap(), "{a = 10, b = 20, total = 30}");
}

#[test]
fn host_function_matches() {
    let cfg = host_config("roll", vec![Type::Number], Type::Number);
    let (mut ast, mut ir, _) = triple("function f(n) return roll(n) + 1 end", &cfg);
    ast.set_host("roll", Box::new(|a| Ok(V::Num(number(&a[0]) * 2.0))));
    ir.set_host("roll", Box::new(|a| Ok(V::Num(number(&a[0]) * 2.0))));
    let a = ast.call_show("f", &[V::Num(3.0)]).unwrap();
    assert_eq!(a, ir.call_show("f", &[V::Num(3.0)]).unwrap());
    assert_eq!(a, "7");
}

#[test]
fn host_function() {
    let cfg = host_config("roll", vec![Type::Number], Type::Number);
    let (mut ast, _, mut jit) = triple("function f(n) return roll(n) + 1 end", &cfg);
    ast.set_host("roll", Box::new(|a| Ok(V::Num(number(&a[0]) * 2.0))));
    jit.set_host("roll", Box::new(|a| Ok(V::Num(number(&a[0]) * 2.0))));
    let a = ast.call_show("f", &[V::Num(3.0)]).unwrap();
    assert_eq!(a, jit.call_show("f", &[V::Num(3.0)]).unwrap());
}

#[test]
fn host_error_propagates() {
    let cfg = host_config("boom", vec![], Type::Number);
    let (_, _, mut jit) = triple("function f() return boom() end", &cfg);
    jit.set_host("boom", Box::new(|_| Err(RunError::Host("kaboom".into()))));
    let err = jit.call("f", &[]).unwrap_err();
    assert!(matches!(err, RunError::Host(m) if m == "kaboom"));
}

// ---- many inputs ------------------------------------------------------------

/// A tiny deterministic LCG (numerical-recipes constants) — no external rng, reproducible.
struct Lcg(u64);
impl Lcg {
    fn next_u64(&mut self) -> u64 {
        self.0 = self
            .0
            .wrapping_mul(6364136223846793005)
            .wrapping_add(1442695040888963407);
        self.0
    }
    /// A "nice" number in [-50, 50], sometimes whole — exercises both integer-ish and
    /// fractional paths.
    fn number(&mut self) -> f64 {
        let r = self.next_u64();
        let whole = (r % 101) as i64 - 50;
        if r & 0x100 == 0 {
            whole as f64
        } else {
            whole as f64 + ((r >> 16) % 1000) as f64 / 1000.0
        }
    }
}


fn fuzz_numeric(src: &str, func: &str, arity: usize, seed: u64, iters: usize) {
    let (mut ast, mut ir, mut jit) = triple(src, &TypeConfig::default());
    let mut rng = Lcg(seed);
    for _ in 0..iters {
        let args: Vec<V> = (0..arity).map(|_| V::Num(rng.number())).collect();
        let a = ast.call_show(func, &args);
        let b = ir.call_show(func, &args);
        let c = jit.call_show(func, &args);
        match (a, b, c) {
            (Ok(a), Ok(b), Ok(c)) => {
                assert_eq!(a, b, "AST vs IR for `{func}{args:?}`\n{src}");
                assert_eq!(b, c, "IR vs JIT for `{func}{args:?}`\n{src}");
            }
            (Err(_), Err(_), Err(_)) => {}
            (a, b, c) => panic!("disagreement `{func}{args:?}`: {a:?}/{b:?}/{c:?}\n{src}"),
        }
    }
}

#[test]
fn fuzz_arithmetic_mix() {
    let src = "function f(a, b, c)\n\
                 return (a + b) * c - a / (b + 1.0) + a % 7.0 + b // 3.0\n\
               end";
    fuzz_numeric(src, "f", 3, 0xC0FFEE, 500);
}

#[test]
fn fuzz_branches_and_compare() {
    let src = "function f(a, b)\n\
                 if a < b then return a * 2.0 end\n\
                 if a == b then return 0.0 end\n\
                 return b - a\n\
               end";
    fuzz_numeric(src, "f", 2, 0x1234_5678, 500);
}

#[test]
fn fuzz_loop_accumulate() {
    // A bounded loop whose trip count depends on the input.
    let src = "function f(n)\n\
                 local s = 0.0\n\
                 local i = 1\n\
                 while i <= n do\n\
                   s = s + i * 1.5\n\
                   i = i + 1\n\
                 end\n\
                 return s\n\
               end";
    fuzz_numeric(src, "f", 1, 0xABCD, 300);
}

#[test]
fn fuzz_math_builtins() {
    let src = "function f(a, b)\n\
                 return math.floor(a) + math.max(a, b) - math.min(a, b) + math.abs(a)\n\
               end";
    fuzz_numeric(src, "f", 2, 0x5EED, 500);
}

#[test]
fn fuzz_recursion() {
    // Clamp via comparison so deep/negative inputs terminate identically everywhere.
    let src = "function fib(n)\n\
                 if n < 2.0 then return n end\n\
                 if n > 20.0 then return 0.0 end\n\
                 return fib(n - 1.0) + fib(n - 2.0)\n\
               end";
    fuzz_numeric(src, "fib", 1, 0xF1B0, 200);
}

#[test]
fn fuzz_short_circuit() {
    let src = "function f(a, b)\n\
                 return (a < b) and (b < 10.0) or (a == 0.0)\n\
               end";
    fuzz_numeric(src, "f", 2, 0x5C2C, 500);
}

// ---- effects, identity, missing bindings and ill-typed values ----------------------

fn outcome(r: &Result<String, RunError>) -> Result<String, ()> {
    r.clone().map_err(|_| ())
}

fn assert_agree(
    label: &str,
    ast: &Result<String, RunError>,
    ir: &Result<String, RunError>,
    jit: &Result<String, RunError>,
) {
    let (a, b, c) = (outcome(ast), outcome(ir), outcome(jit));
    assert_eq!(a, b, "{label}: AST vs IR disagree ({ast:?} / {ir:?})");
    assert_eq!(b, c, "{label}: IR vs JIT disagree ({ir:?} / {jit:?})");
}

/// Call on all backends, and return what the compiled code says.
fn agreed(t: &mut (Ast, Ir, Jit), label: &str, name: &str, args: &[V]) -> Result<String, RunError> {
    let a = t.0.call_show(name, args);
    let b = t.1.call_show(name, args);
    let c = t.2.call_show(name, args);
    assert_agree(label, &a, &b, &c);
    c
}

fn tick_config() -> TypeConfig {
    host_config("tick", vec![], Type::Number)
}

fn mem_config(field: &str) -> TypeConfig {
    let mut cfg = TypeConfig::default();
    let mut rec = Fields::new();
    rec.insert(field.to_string(), Type::Number);
    cfg.memory.insert("mem".to_string(), Type::Record(rec));
    cfg
}

fn tab(key: &str, n: f64) -> V {
    V::Tab(vec![(key.to_string(), V::Num(n))])
}

fn counter() -> (Rc<std::cell::RefCell<u32>>, Host) {
    let cell = Rc::new(std::cell::RefCell::new(0u32));
    let c = cell.clone();
    (
        cell,
        Box::new(move |_: &[V]| {
            *c.borrow_mut() += 1;
            Ok(V::Num(0.0))
        }),
    )
}

fn counted(t: &mut (Ast, Ir, Jit)) -> impl Fn() -> (u32, u32, u32) {
    let (a, fa) = counter();
    let (b, fb) = counter();
    let (c, fc) = counter();
    t.0.set_host("tick", fa);
    t.1.set_host("tick", fb);
    t.2.set_host("tick", fc);
    move || (*a.borrow(), *b.borrow(), *c.borrow())
}

#[test]
fn error_aborts_later_host_calls() {
    let src = "\
function f(i)
  local xs = {1, 2, 3}
  xs[i] = 9
  tick()
  return 0
end
";
    let mut t = triple(src, &tick_config());
    let counts = counted(&mut t);
    let c = agreed(&mut t, "out-of-range array set", "f", &[V::Num(99.0)]);
    assert!(c.is_err(), "expected the erroring call to fail");
    assert_eq!(counts(), (0, 0, 0), "host function ran after an error");
}

#[test]
fn error_aborts_later_memory_writes() {
    let src = "\
function f(i)
  local xs = {1, 2, 3}
  xs[i] = 9
  mem.hits = mem.hits + 1
  return 0
end
";
    let mut t = triple(src, &mem_config("hits"));
    t.0.set_memory("mem", &tab("hits", 0.0));
    t.1.set_memory("mem", &tab("hits", 0.0));
    t.2.set_memory("mem", &tab("hits", 0.0));
    let _ = agreed(&mut t, "out-of-range array set", "f", &[V::Num(99.0)]);
    let (ma, mb, mc) = (t.0.memory("mem"), t.1.memory("mem"), t.2.memory("mem"));
    assert_eq!(ma, mb, "AST vs IR memory diverged after an errored call");
    assert_eq!(mb, mc, "IR vs JIT memory diverged after an errored call");
    assert_eq!(mc, Some("{hits = 0}".to_string()), "memory was written after an error");
}

#[test]
fn error_inside_a_loop_stops_iterating() {
    let src = "\
function f()
  local xs = {1, 2, 3}
  local total = 0
  for i = 1, 5 do
    xs[i + 10] = 1
    tick()
    total = total + 1
  end
  return total
end
";
    let mut t = triple(src, &tick_config());
    let counts = counted(&mut t);
    let c = agreed(&mut t, "erroring loop", "f", &[]);
    assert!(c.is_err(), "expected the erroring loop to fail");
    assert_eq!(counts(), (0, 0, 0), "loop kept running after an error");
}

/// A module that applies the closure that `borrow` hands it.
fn borrower(extra: &str) -> Jit {
    let src = format!("{extra}function apply(x)\n  local f = borrow()\n  return f(x)\nend\n");
    let number_fn =
        Type::Function(FnType { params: vec![Type::Number], ret: Box::new(Type::Number) });
    let (_, _, jit) = triple(&src, &host_config("borrow", vec![], number_fn));
    jit
}

/// Run `apply` with a closure of another module as what `borrow` returns.
fn apply_foreign(jit: &mut Jit, clo: Value) -> Result<Value, RunError> {
    jit.set_host("borrow", Box::new(move |_| Ok(V::Num(0.0))));
    jit.borrowed = Some(clo);
    jit.call_raw("apply", vec![Value::Number(10.0_f64.to_bits())])
}

const MAKE_ADD: &str = "\
function make(n)
  local function op(x) return x + n end
  return op
end
";

const MAKE_SUB: &str = "\
function make(n)
  local function op(x) return x - n end
  return op
end
";

#[test]
fn unresolvable_indirect_call_errors_instead_of_faulting() {
    let producer_src = "\
function producer(n)
  local function add(x) return x + n end
  return add
end
";
    let (_, _, mut producer) = triple(producer_src, &TypeConfig::default());
    let foreign = producer
        .call_raw("producer", vec![Value::Number(3.0_f64.to_bits())])
        .expect("producer");
    let mut consumer = borrower("");
    let r = apply_foreign(&mut consumer, foreign);
    assert!(r.is_err(), "an unresolvable closure must error; got {r:?}");
}

#[test]
fn foreign_closure_rejected_by_call_value() {
    let (_, _, mut a) = triple(MAKE_ADD, &TypeConfig::default());
    let program = grindlang::compile(MAKE_SUB, &TypeConfig::default()).unwrap();
    let mut b = Jit::new(&program, 2);

    let clo = a.call_raw("make", vec![Value::Number(3.0_f64.to_bits())]).expect("make");
    let via_a = a
        .call_value(clo.dup(), vec![Value::Number(10.0_f64.to_bits())])
        .expect("origin module invokes its own closure");
    assert_eq!(show(a.heap(), &via_a), "13");

    // A module that made no closure yet, and one that made one of its own.
    let via_b = b
        .call_value(clo.dup(), vec![Value::Number(10.0_f64.to_bits())])
        .expect_err("module B must reject A's closure");
    assert!(via_b.to_string().contains("different compiled module"), "got {via_b:?}");
    let own = b.call_raw("make", vec![Value::Number(3.0_f64.to_bits())]).expect("make");
    assert_ne!(own, clo);
    let via_b = b
        .call_value(clo, vec![Value::Number(10.0_f64.to_bits())])
        .expect_err("module B must reject A's closure");
    assert!(via_b.to_string().contains("different compiled module"), "got {via_b:?}");
}

#[test]
fn foreign_closure_rejected_by_script_call() {
    let program = grindlang::compile(MAKE_ADD, &TypeConfig::default()).unwrap();
    let mut a = Jit::new(&program, 2);
    let mut b = borrower(MAKE_SUB);
    let clo = a.call_raw("make", vec![Value::Number(3.0_f64.to_bits())]).expect("make");
    let via_b = apply_foreign(&mut b, clo).expect_err("B's script must reject A's closure");
    assert!(via_b.to_string().contains("different compiled module"), "got {via_b:?}");
}

#[test]
fn vm_closure_rejected_by_jit() {
    let (_, mut vm, mut jit) = triple(MAKE_ADD, &TypeConfig::default());
    let from_vm = vm.call_raw("make", vec![Value::Number(3.0_f64.to_bits())]).expect("vm make");
    let r = jit
        .call_value(from_vm, vec![Value::Number(10.0_f64.to_bits())])
        .expect_err("the JIT must reject a VM-built closure");
    assert!(r.to_string().contains("different compiled module"), "got {r:?}");
}

#[test]
fn missing_memory_binding_is_an_error() {
    let mut t = triple("function f() return mem.x + 1 end", &mem_config("x"));
    let c = agreed(&mut t, "unbound memory read", "f", &[]);
    assert!(c.is_err(), "reading an unbound memory must fail");
}

#[test]
fn memory_bound_to_nil_is_not_reported_as_missing() {
    let (_, _, mut jit) = triple("function f() return mem.x + 1 end", &mem_config("x"));
    let unbound = jit.call("f", &[]).expect_err("unbound read must fail");
    assert!(unbound.to_string().contains("was not provided"), "got {unbound:?}");
    jit.set_memory("mem", &V::Nil);
    if let Err(e) = jit.call("f", &[]) {
        assert!(
            !e.to_string().contains("was not provided"),
            "an explicitly bound memory must not read as missing; got {e:?}"
        );
    }
}

#[test]
fn unregistered_host_function_is_an_error() {
    let mut t = triple("function f() return tick() end", &tick_config());
    let c = agreed(&mut t, "unregistered host function", "f", &[]);
    assert!(c.is_err(), "calling an unregistered host function must fail");
}

#[test]
fn memory_binding_is_observed_after_being_set() {
    let mut t = triple("function f() return mem.x + 1 end", &mem_config("x"));
    assert!(t.2.call("f", &[]).is_err(), "unbound read must fail");
    t.0.set_memory("mem", &tab("x", 41.0));
    t.1.set_memory("mem", &tab("x", 41.0));
    t.2.set_memory("mem", &tab("x", 41.0));
    let c = agreed(&mut t, "bound memory read", "f", &[]);
    assert_eq!(c.expect("bound read"), "42");
}

#[test]
fn const_table_write_is_rejected() {
    let cases = [
        "C = {x = 1}\nfunction f() C.x = 2 return C.x end\n",
        "C = {a = {b = 1}}\nfunction f() C.a.b = 2 return C.a.b end\n",
        "C = {arr = {1, 2}}\nfunction f() C.arr[1] = 9 return C.arr[1] end\n",
    ];
    for src in cases {
        let err = match grindlang::analyze(src, &TypeConfig::default()) {
            Ok(_) => panic!("must be rejected:\n{src}"),
            Err(e) => e,
        };
        assert!(format!("{err:?}").contains("E0307"), "got {err:?}");
    }
}

#[test]
fn const_table_read_is_allowed() {
    let src = "C = {x = 1}\nfunction f() return C.x + 1 end\n";
    let mut t = triple(src, &TypeConfig::default());
    let c = agreed(&mut t, "read through a constant", "f", &[]);
    assert_eq!(c.expect("read"), "2");
}

#[test]
fn a_local_shadowing_a_constant_is_still_writable() {
    let src = "\
C = {x = 1}
function f()
  local C = {x = 10}
  C.x = C.x + 1
  return C.x
end
";
    let mut t = triple(src, &TypeConfig::default());
    let c = agreed(&mut t, "write through a shadowing local", "f", &[]);
    assert_eq!(c.expect("shadowed write"), "11");
}

#[test]
fn memory_field_write_is_still_allowed() {
    let mut t =
        triple("function f() mem.x = mem.x + 1 return mem.x end", &mem_config("x"));
    t.0.set_memory("mem", &tab("x", 1.0));
    t.1.set_memory("mem", &tab("x", 1.0));
    t.2.set_memory("mem", &tab("x", 1.0));
    let c = agreed(&mut t, "memory field write", "f", &[]);
    assert_eq!(c.expect("memory write"), "2");
}

#[test]
fn exported_constant_reads_back_consistently() {
    let src = "C = {x = 1}\nfunction f() return C.x end\n";
    let mut t = triple(src, &TypeConfig::default());
    let c = agreed(&mut t, "read exported constant", "C", &[]);
    assert_eq!(c.expect("read export"), "{x = 1}");
}

#[test]
fn a_constant_is_equal_to_itself() {
    let src = "C = {x = 1}\nfunction f()\n  local a = C\n  local b = C\n  return a == b\nend\n";
    let mut t = triple(src, &TypeConfig::default());
    let c = agreed(&mut t, "a constant compared with itself", "f", &[]);
    assert_eq!(c.expect("identity"), "true");
}

#[test]
fn a_constant_read_as_an_export_matches_the_in_script_read() {
    let src = "C = {x = 1}\nfunction f() return C end\n";
    let (mut ast, mut ir, mut jit) = triple(src, &TypeConfig::default());
    for (label, from_fn, from_export) in [
        ("AST", ast.call_show("f", &[]), ast.call_show("C", &[])),
        ("IR", ir.call_show("f", &[]), ir.call_show("C", &[])),
        ("JIT", jit.call_show("f", &[]), jit.call_show("C", &[])),
    ] {
        assert_eq!(
            outcome(&from_fn),
            outcome(&from_export),
            "{label}: reading `C` in-script and as an export disagreed"
        );
    }
}

#[test]
fn a_write_through_an_aliased_constant_is_refused() {
    let src = "\
C = {x = 1}
function f()
  local t = C
  t.x = t.x + 1
  return C.x
end
";
    let mut t = triple(src, &TypeConfig::default());
    for i in 0..3 {
        let c = agreed(&mut t, &format!("aliased write, call {i}"), "f", &[]);
        let e = c.expect_err("writing through an aliased constant must fail");
        assert!(e.to_string().contains("cannot modify a constant"), "call {i}: got {e:?}");
    }
}

#[test]
fn a_write_into_a_nested_constant_is_refused() {
    for (label, src) in [
        (
            "nested table",
            "C = {a = {b = 1}}\nfunction f()\n  local t = C.a\n  t.b = 2\n  return C.a.b\nend\n",
        ),
        (
            "array element",
            "C = {arr = {1, 2}}\nfunction f()\n  local t = C.arr\n  t[1] = 9\n  return C.arr[1]\nend\n",
        ),
    ] {
        let mut t = triple(src, &TypeConfig::default());
        let c = agreed(&mut t, label, "f", &[]);
        assert!(c.is_err(), "{label}: a nested constant must be unwritable");
    }
}

#[test]
fn freezing_a_constant_does_not_freeze_other_tables() {
    let src = "\
C = {x = 1}
function f()
  local t = {x = C.x}
  t.x = t.x + 1
  local arr = {1, 2}
  arr[1] = 9
  return t.x
end
";
    let mut t = triple(src, &TypeConfig::default());
    let c = agreed(&mut t, "write to a normal table alongside a constant", "f", &[]);
    assert_eq!(c.expect("normal write"), "2");
}

#[test]
fn a_table_is_equal_to_itself() {
    let src = "function f()\n  local t = {x = 1}\n  local u = t\n  return t == u\nend\n";
    let mut t = triple(src, &TypeConfig::default());
    let c = agreed(&mut t, "a table compared with itself", "f", &[]);
    assert_eq!(c.expect("identity"), "true");
}

#[test]
fn structurally_identical_tables_are_not_equal() {
    let src = "function f()\n  local a = {x = 1}\n  local b = {x = 1}\n  return a == b\nend\n";
    let mut t = triple(src, &TypeConfig::default());
    let c = agreed(&mut t, "two equal-looking tables", "f", &[]);
    assert_eq!(c.expect("identity"), "false");
}

#[test]
fn scalar_constants_still_read_correctly() {
    let src = "MAX = 99\nSCALE = 1.5\nfunction f() return MAX * SCALE end\n";
    let mut t = triple(src, &TypeConfig::default());
    let c = agreed(&mut t, "scalar constants", "f", &[]);
    assert_eq!(c.expect("scalar const"), "148.5");
}

#[test]
fn ill_typed_memory_binding_is_an_error() {
    let mut t = triple("function f() return mem.x + 1 end", &mem_config("x"));
    t.0.set_memory("mem", &V::Nil);
    t.1.set_memory("mem", &V::Nil);
    t.2.set_memory("mem", &V::Nil);
    let c = agreed(&mut t, "memory bound to nil", "f", &[]);
    assert!(c.is_err(), "an off-schema memory binding must fail");
}

#[test]
fn ill_typed_host_function_result_is_an_error() {
    let mut t = triple("function f() return tick() + 1 end", &tick_config());
    t.0.set_host("tick", Box::new(|_| Ok(s("nope"))));
    t.1.set_host("tick", Box::new(|_| Ok(s("nope"))));
    t.2.set_host("tick", Box::new(|_| Ok(s("nope"))));
    let c = agreed(&mut t, "host function returning a string", "f", &[]);
    assert!(c.is_err(), "an off-signature host result must fail");
}

#[test]
fn raw_call_rejects_mistyped_arguments() {
    let mut t = triple("function f(n) return n + 1 end", &TypeConfig::default());
    let c = agreed(&mut t, "string passed to a number parameter", "f", &[s("hello")]);
    assert!(c.is_err(), "a mistyped argument must be rejected");
}

#[test]
fn trampoline_call_rejects_mistyped_arguments() {
    let src = "function f(flag, s) if flag then return s end return \"no\" end";
    let (_, _, mut jit) = triple(src, &TypeConfig::default());
    let ok = jit.call_show("f", &[V::Bool(true), s("yes")]).expect("well-typed call");
    assert_eq!(ok, "yes");
    let e = jit
        .call("f", &[V::Num(1.0), s("yes")])
        .expect_err("a number passed to a bool parameter must be rejected");
    assert!(e.to_string().contains("expected a bool argument"), "got {e:?}");
}

#[test]
fn a_parameter_type_is_always_justified_by_use() {
    let err = match grindlang::analyze("function f(n) return 7 end", &TypeConfig::default()) {
        Ok(_) => panic!("an undetermined parameter type must be rejected"),
        Err(e) => e,
    };
    assert!(format!("{err:?}").contains("E0410"), "got {err:?}");
}

#[test]
fn surplus_arguments_are_rejected_by_every_backend() {
    let src = "C = {x = 1}\nN = 7\nfunction f() return 1 end\nfunction g(n) return n + 1 end\n";
    let mut t = triple(src, &TypeConfig::default());
    for (export, args) in [
        ("f", vec![V::Num(1.0)]),
        ("g", vec![V::Num(1.0), V::Num(2.0)]),
        ("g", vec![]),
        ("C", vec![V::Num(1.0)]),
        ("N", vec![V::Num(1.0)]),
    ] {
        let label = format!("`{export}` with {} argument(s)", args.len());
        let c = agreed(&mut t, &label, export, &args);
        assert!(c.is_err(), "{label}: wrong arity must be a call error");
    }
}

#[test]
fn exact_arity_calls_still_succeed() {
    let src = "C = {x = 1}\nfunction f() return 1 end\nfunction g(n) return n + 1 end\n";
    let mut t = triple(src, &TypeConfig::default());
    for (export, args, want) in
        [("f", vec![], "1"), ("g", vec![V::Num(1.0)], "2"), ("C", vec![], "{x = 1}")]
    {
        let c = agreed(&mut t, export, export, &args);
        assert_eq!(c.expect("correct arity"), want);
    }
}

// ---- embedding --------------------------------------------------------------------

/// Compile against an engine, and bind the host functions.
fn load(engine: &Engine, src: &str, hosts: Vec<(&str, Host)>) -> Jit {
    let module = engine.compile(src).expect("compile");
    let mut jit = Jit::new(module.program(), 1);
    for (name, f) in hosts {
        jit.set_host(name, f);
    }
    jit
}

fn signature(params: Vec<Type>, ret: Type) -> FnType {
    FnType { params, ret: Box::new(ret) }
}

fn num<T: IntoValue>(jit: &mut Jit, x: T) -> Value {
    x.into_value(jit.jm.ctx_mut().heap_mut())
}

fn float(n: f64) -> Bits {
    Bits(n.to_bits())
}

fn call_typed<T: FromValue>(jit: &mut Jit, name: &str, args: Vec<Value>) -> Result<T, CallError> {
    let result = jit.call_raw(name, args);
    typed_result(jit.heap(), result)
}

#[test]
fn typed_call_with_host_fn() {
    let mut engine = Engine::new();
    engine.register_fn_raw(
        "double",
        signature(vec![Bits::grindlang_type()], Bits::grindlang_type()),
    );
    let mut m = load(
        &engine,
        "function calc(x) return double(x) + 1 end",
        vec![("double", Box::new(|args| Ok(V::Num(number(&args[0]) * 2.0))))],
    );
    let x = num(&mut m, float(20.0));
    let out: Bits = call_typed(&mut m, "calc", vec![x]).expect("call");
    assert_eq!(out, float(41.0));
}

#[test]
fn integer_marshaling() {
    let mut m = load(&Engine::new(), "function add(a, b) return a + b end", vec![]);
    let (a, b) = (num(&mut m, float(40_i64 as f64)), num(&mut m, float(2_i64 as f64)));
    let sum: Bits = call_typed(&mut m, "add", vec![a, b]).expect("call");
    assert_eq!(f64::from_bits(sum.0) as i64, 42);
}

#[test]
fn bool_result() {
    let mut m = load(&Engine::new(), "function ok(hp) return hp > 0 end", vec![]);
    let (five, zero) = (num(&mut m, float(5.0)), num(&mut m, float(0.0)));
    assert!(call_typed::<bool>(&mut m, "ok", vec![five]).unwrap());
    assert!(!call_typed::<bool>(&mut m, "ok", vec![zero]).unwrap());
}

#[test]
fn string_result() {
    let mut m = load(&Engine::new(), "function shout(s) return string.upper(s) end", vec![]);
    let hi = num(&mut m, "hi".to_string());
    let out: String = call_typed(&mut m, "shout", vec![hi]).unwrap();
    assert_eq!(out, "HI");
}

#[test]
fn vec_result() {
    let src = "function grow(n)\n\
                 local out = { 1 }\n\
                 out[#out + 1] = n\n\
                 return out\n\
               end";
    let mut m = load(&Engine::new(), src, vec![]);
    let n = num(&mut m, float(9.0));
    let out: Vec<Bits> = call_typed(&mut m, "grow", vec![n]).unwrap();
    assert_eq!(out, vec![float(1.0), float(9.0)]);
}

#[test]
fn fallible_host_fn() {
    let mut engine = Engine::new();
    engine.register_fn_raw("checked_sqrt", signature(vec![Type::Number], Type::Number));
    let mut m = load(
        &engine,
        "function f(x) return checked_sqrt(x) end",
        vec![(
            "checked_sqrt",
            Box::new(|args| {
                let x = number(&args[0]);
                if x < 0.0 {
                    Err(RunError::Host("negative input".to_string()))
                } else {
                    Ok(V::Num(x.sqrt()))
                }
            }),
        )],
    );

    let (x, y) = (num(&mut m, float(16.0)), num(&mut m, float(-1.0)));
    let ok: Bits = call_typed(&mut m, "f", vec![x]).unwrap();
    assert_eq!(ok, float(4.0));

    let err = call_typed::<Bits>(&mut m, "f", vec![y]).unwrap_err();
    match err {
        CallError::Run(e) => assert!(e.to_string().contains("negative input")),
        other => panic!("expected a run error, got {other:?}"),
    }
}

#[test]
fn raw_host_fn() {
    let mut engine = Engine::new();
    engine.register_fn_raw(
        "sum_all",
        signature(vec![Type::array(Type::Number)], Type::Number),
    );
    let mut m = load(
        &engine,
        "function total(xs) return sum_all(xs) end",
        vec![(
            "sum_all",
            Box::new(|args| match args.first() {
                Some(V::Arr(items)) => Ok(V::Num(items.iter().map(number).sum())),
                _ => Err(RunError::Host("expected an array".into())),
            }),
        )],
    );
    let out = m
        .call("total", &[V::Arr(vec![V::Num(1.0), V::Num(2.0), V::Num(3.0)])])
        .unwrap();
    assert_eq!(out, V::Num(6.0));
}

#[test]
fn memory_read_write() {
    let mut engine = Engine::new();
    let mut rec = Fields::new();
    rec.insert("gold".to_string(), Type::Number);
    engine.declare_memory("mem", Type::Record(rec));

    let src = "function spend(n)\n\
                 if mem.gold >= n then\n\
                   mem.gold = mem.gold - n\n\
                   return true\n\
                 end\n\
                 return false\n\
               end";
    let mut m = load(&engine, src, vec![]);
    m.set_memory("mem", &tab("gold", 100.0));

    for (n, want) in [(30.0, true), (50.0, true), (40.0, false)] {
        let n = num(&mut m, float(n));
        assert_eq!(call_typed::<bool>(&mut m, "spend", vec![n]).unwrap(), want);
    }

    let mem = m.memory_value("mem").unwrap();
    assert_eq!(get(m.heap(), &m.heap().field(&mem, "gold")), V::Num(20.0));
}

#[test]
fn export_introspection() {
    let src = "K = 5\nfunction f(a, b) return a + b end";
    let m = Engine::new().compile(src).expect("compile");
    assert_eq!(
        m.export_type("f").map(|t| t.to_string()).as_deref(),
        Some("fn(number, number) -> number")
    );
    assert_eq!(m.export_type("K").map(|t| t.to_string()).as_deref(), Some("number"));
    assert!(m.exports().contains_key("f"));
    assert!(m.export_type("nope").is_none());
}

#[test]
fn build_error_on_type_mismatch() {
    let result = Engine::new().compile("function f(x) return x + \"oops\" end");
    match result {
        Err(BuildError::Check(_)) => {}
        Err(other) => panic!("expected a Check error, got {other:?}"),
        Ok(_) => panic!("expected the type mismatch to fail compilation"),
    }
}

#[test]
fn call_error_on_result_mismatch() {
    let mut m = load(&Engine::new(), "function f() return 1 end", vec![]);
    let err = call_typed::<String>(&mut m, "f", vec![]).unwrap_err();
    assert!(matches!(err, CallError::Result(_)));
}

#[test]
fn engine_compiles_many_modules() {
    let mut engine = Engine::new();
    engine.register_fn_raw("bonus", signature(vec![], Type::Number));
    let bonus = || -> Host { Box::new(|_| Ok(V::Num(10.0))) };
    let mut a = load(&engine, "function f() return bonus() end", vec![("bonus", bonus())]);
    let mut b = load(&engine, "function g() return bonus() * 2 end", vec![("bonus", bonus())]);
    assert_eq!(call_typed::<Bits>(&mut a, "f", vec![]).unwrap(), float(10.0));
    assert_eq!(call_typed::<Bits>(&mut b, "g", vec![]).unwrap(), float(20.0));
}

#[test]
fn optional_result() {
    let mut m = load(&Engine::new(), "function parse(s) return tonumber(s) end", vec![]);
    let (x, y) = (num(&mut m, "3.5".to_string()), num(&mut m, "nope".to_string()));
    let some: Option<Bits> = call_typed(&mut m, "parse", vec![x]).unwrap();
    assert_eq!(some, Some(float(3.5)));
    let none: Option<Bits> = call_typed(&mut m, "parse", vec![y]).unwrap();
    assert_eq!(none, None);
}

#[test]
fn programs_run_to_their_values() {
    for (label, src, expected) in [
        (
            "recursion",
            "function fib(n)\n  if n < 2 then return n end\n  return fib(n-1) + fib(n-2)\nend\n\
             function main() return fib(12) end",
            "144",
        ),
        (
            "loop",
            "function main()\n  local s = 0\n  local i = 1\n  while i <= 5 do s = s + i*i i = i + 1 end\n  return s\nend",
            "55",
        ),
        (
            "builtins",
            "function main() return math.floor(3.7) + string.len(\"abcd\") end",
            "7",
        ),
        (
            "array",
            "function main()\n  local out = { 1, 2 }\n  out[#out + 1] = 3\n  return out\nend",
            "[1, 2, 3]",
        ),
        (
            "closure",
            "function make(n) return function(x) return x + n end end\n\
             function main() local add = make(10) return add(5) end",
            "15",
        ),
    ] {
        let mut t = triple(src, &TypeConfig::default());
        assert_eq!(agreed(&mut t, label, "main", &[]).unwrap(), expected, "[{label}]");
    }
}

/// A random expression over `a`, `b`, `c` and small literals, fully parenthesized.
fn expression(rng: &mut Lcg, depth: usize) -> String {
    let pick = |rng: &mut Lcg, n: u64| (rng.next_u64() >> 33) % n;
    if depth == 0 || pick(rng, 4) == 0 {
        return match pick(rng, 2) {
            0 => pick(rng, 21).to_string(),
            _ => ["a", "b", "c"][pick(rng, 3) as usize].to_string(),
        };
    }
    if pick(rng, 8) == 0 {
        return format!("(-{})", expression(rng, depth - 1));
    }
    let op = ["+", "-", "*", "/", "//", "%", "^"][pick(rng, 7) as usize];
    let l = expression(rng, depth - 1);
    let r = expression(rng, depth - 1);
    format!("({l} {op} {r})")
}

#[test]
fn interp_vm_jit_agree() {
    let mut rng = Lcg(0x5eed);
    for _ in 0..128 {
        let expr = expression(&mut rng, 5);
        let values = [rng.number(), rng.number(), rng.number()];
        let used: Vec<(&str, f64)> = ["a", "b", "c"]
            .into_iter()
            .zip(values)
            .filter(|(name, _)| expr.contains(name))
            .collect();
        let names: Vec<&str> = used.iter().map(|(n, _)| *n).collect();
        let pin = if names.is_empty() {
            String::new()
        } else {
            format!("  local _pin = ({}) * 0\n", names.join(" + "))
        };
        let src = format!("function f({})\n{pin}  return {expr}\nend", names.join(", "));
        let args: Vec<V> = used.iter().map(|(_, v)| V::Num(*v)).collect();
        let mut t = triple(&src, &TypeConfig::default());
        let _ = agreed(&mut t, &src, "f", &args);
    }
}

#[test]
fn a_returned_closure_is_called() {
    let src = "function make_adder(n) return function(x) return x + n end end";
    let mut m = load(&Engine::new(), src, vec![]);
    let n = num(&mut m, float(10.0));
    let adder = m.call_raw("make_adder", vec![n]).unwrap();
    let x = num(&mut m, float(5.0));
    let result = m.call_value(adder, vec![x]);
    let sum: Bits = typed_result(m.heap(), result).unwrap();
    assert_eq!(sum, float(15.0));
    assert!(m.call_value(Value::Nil, vec![]).is_err());
}

// ---- what loops fix when they start -------------------------------------------------

fn all_three(src: &str, args: &[V]) -> String {
    let mut t = triple(src, &TypeConfig::default());
    agreed(&mut t, src, "f", args).unwrap()
}

#[test]
fn ipairs_walks_the_elements_that_were_there() {
    let src = "function f()\n\
                 local t = {1, 2, 3}\n\
                 local n = 0\n\
                 for i, v in ipairs(t) do\n\
                   n = n + v\n\
                   if i < 3 then t[#t + 1] = 10 end\n\
                 end\n\
                 return n * 100 + #t\n\
               end";
    assert_eq!(all_three(src, &[]), "605");
}

#[test]
fn assigning_a_loop_variable_does_not_change_the_count() {
    let src = "function f()\n\
                 local n = 0\n\
                 for i = 1, 3 do\n\
                   n = n + i\n\
                   i = 10\n\
                 end\n\
                 return n\n\
               end";
    assert_eq!(all_three(src, &[]), "6");
}

#[test]
fn counting_to_or_by_what_is_no_number_ends_at_once() {
    let to = "function f(x)\n\
                local n = 0\n\
                for i = 1, x do n = n + 1 end\n\
                return n\n\
              end";
    assert_eq!(all_three(to, &[V::Num(f64::NAN)]), "0");
    assert_eq!(all_three(to, &[V::Num(2.0)]), "2");
    let by = "function f(x)\n\
                local n = 0\n\
                for i = 1, 3, x do\n\
                  n = n + 1\n\
                  if n > 5 then break end\n\
                end\n\
                return n\n\
              end";
    let mut t = triple(by, &TypeConfig::default());
    let _ = agreed(&mut t, by, "f", &[V::Num(f64::NAN)]);
    assert_eq!(all_three(by, &[V::Num(2.0)]), "2");
}

#[test]
fn pairs_walks_the_entries_that_were_there() {
    let src = "--- @param m { [string]: number }\n\
               function f(m)\n\
                 local n = 0\n\
                 for k, v in pairs(m) do\n\
                   m[\"b\"] = 100\n\
                   m[\"c\"] = 1000\n\
                   n = n + v\n\
                 end\n\
                 return n\n\
               end";
    let m = V::Tab(vec![("a".to_string(), V::Num(1.0)), ("b".to_string(), V::Num(2.0))]);
    assert_eq!(all_three(src, &[m]), "3");
}

#[test]
fn closures_made_in_a_loop_share_its_variables() {
    let src = "function f()\n\
                 local first = function() return 0 end\n\
                 for i = 1, 3 do\n\
                   local x = i * 10\n\
                   if i == 1 then first = function() return x end end\n\
                 end\n\
                 return first()\n\
               end";
    assert_eq!(all_three(src, &[]), "30");
}

#[test]
fn numbers_and_optional_numbers_are_compared_with_nil() {
    let src = "function parse(s) return tonumber(s) end\n\
               function f(a)\n\
                 local n = a + 0\n\
                 if n == nil then return 0 end\n\
                 if parse(\"x\") ~= nil then return 1 end\n\
                 if parse(\"7\") == nil then return 2 end\n\
                 return 3\n\
               end";
    assert_eq!(all_three(src, &[V::Num(5.0)]), "3");
}

#[test]
fn builtins_come_to_the_same_in_all_three() {
    let src = "function f(a, s)\n\
                 local n = 0\n\
                 for i = 1, math.floor(a) do\n\
                   n = n + math.max(i, math.abs(0 - 2)) * string.len(string.upper(s))\n\
                 end\n\
                 return n\n\
               end";
    assert_eq!(all_three(src, &[V::Num(3.5), s("ab")]), "14");
}

#[test]
fn narrowed_numbers_are_computed_with() {
    let plain = "function f(xs)\n\
                   local v = xs[1]\n\
                   if v ~= nil then\n\
                     return v + 0\n\
                   end\n\
                   return 0\n\
                 end";
    assert_eq!(all_three(plain, &[V::Arr(vec![V::Num(7.0)])]), "7");
    assert_eq!(all_three(plain, &[V::Arr(vec![])]), "0");
    let ordered = "function f(xs)\n\
                     local v = xs[1]\n\
                     local w = xs[2]\n\
                     if v ~= nil then\n\
                       if w ~= nil then\n\
                         if v < w then return -v end\n\
                         return w * 2\n\
                       end\n\
                     end\n\
                     return 0\n\
                   end";
    assert_eq!(all_three(ordered, &[V::Arr(vec![V::Num(1.0), V::Num(2.0)])]), "-1");
    assert_eq!(all_three(ordered, &[V::Arr(vec![V::Num(3.0), V::Num(2.0)])]), "4");
    let inner = "function f(m)\n\
                   local xs = m[1]\n\
                   if xs ~= nil then\n\
                     local n = 0\n\
                     for i, x in ipairs(xs) do n = n + x end\n\
                     xs[1] = n\n\
                     local y = xs[1]\n\
                     if y ~= nil then return y * #xs end\n\
                   end\n\
                   return 0\n\
                 end";
    let rows = V::Arr(vec![V::Arr(vec![V::Num(1.0), V::Num(2.0)])]);
    assert_eq!(all_three(inner, &[rows]), "6");
}

#[test]
fn code_of_numbers_and_bools_agrees() {
    let fib = "function f(n)\n\
                 if n < 2 then return n end\n\
                 return f(n - 1) + f(n - 2)\n\
               end";
    assert_eq!(all_three(fib, &[V::Num(10.0)]), "55");
    let gcd = "function even(a)\n\
                 return math.floor(a / 2) * 2 == a\n\
               end\n\
               function f(a, b)\n\
                 local steps = 0\n\
                 while b ~= 0 do\n\
                   local r = a % b\n\
                   a = b\n\
                   b = r\n\
                   steps = steps + 1\n\
                 end\n\
                 if not even(steps) then return -a end\n\
                 return a\n\
               end";
    assert_eq!(all_three(gcd, &[V::Num(48.0), V::Num(18.0)]), "-6");
    assert_eq!(all_three(gcd, &[V::Num(12.0), V::Num(8.0)]), "4");
}
