use vstd::prelude::*;

use crate::types::IpAddr;

verus! {

/// Transport protocol.
#[derive(Clone, Copy, Debug, PartialEq, Eq, Structural, Hash)]
pub enum Protocol {
    Tcp,
    Udp,
}

/// The IP version.
#[derive(Clone, Copy, Debug, PartialEq, Eq, Structural, Hash)]
pub enum IpVersion {
    IpV4,
    IpV6,
}

/// The expression of the filter language.
#[derive(Debug, PartialEq, Eq)]
pub enum Expr {
    Pid(u32),
    Protocol(Protocol),
    IpVersion(IpVersion),
    Addr(IpAddr),
    LocalAddr(IpAddr),
    RemoteAddr(IpAddr),
    Port(u16),
    LocalPort(u16),
    RemotePort(u16),
    And(Box<Expr>, Box<Expr>),
    Or(Box<Expr>, Box<Expr>),
    Not(Box<Expr>),
}

impl Expr {
    /// A copy of the expression.
    pub fn copy(&self) -> (r: Expr)
        ensures
            r == *self,
        decreases self,
    {
        match self {
            Expr::Pid(p) => Expr::Pid(*p),
            Expr::Protocol(p) => Expr::Protocol(*p),
            Expr::IpVersion(v) => Expr::IpVersion(*v),
            Expr::Addr(a) => Expr::Addr(*a),
            Expr::LocalAddr(a) => Expr::LocalAddr(*a),
            Expr::RemoteAddr(a) => Expr::RemoteAddr(*a),
            Expr::Port(p) => Expr::Port(*p),
            Expr::LocalPort(p) => Expr::LocalPort(*p),
            Expr::RemotePort(p) => Expr::RemotePort(*p),
            Expr::And(l, r) => Expr::And(Box::new(l.copy()), Box::new(r.copy())),
            Expr::Or(l, r) => Expr::Or(Box::new(l.copy()), Box::new(r.copy())),
            Expr::Not(x) => Expr::Not(Box::new(x.copy())),
        }
    }
}

impl Clone for Expr {
    fn clone(&self) -> (r: Self)
        ensures
            r == *self,
    {
        self.copy()
    }
}

/// What an expression is evaluated against. A socket whose type is neither
/// stream nor datagram has no protocol.
#[derive(Clone, Copy, Debug, PartialEq, Eq, Structural)]
pub struct Attributes {
    pub pid: u32,
    pub protocol: Option<Protocol>,
    pub ip_version: IpVersion,
    pub local_address: IpAddr,
    pub remote_address: IpAddr,
    pub local_port: u16,
    pub remote_port: u16,
}

/// The value of an expression on the attributes.
pub open spec fn eval(e: Expr, a: Attributes) -> bool
    decreases e,
{
    match e {
        Expr::Pid(pid) => a.pid == pid,
        Expr::Protocol(p) => a.protocol == Some(p),
        Expr::IpVersion(v) => a.ip_version == v,
        Expr::Addr(addr) => a.local_address == addr || a.remote_address == addr,
        Expr::LocalAddr(addr) => a.local_address == addr,
        Expr::RemoteAddr(addr) => a.remote_address == addr,
        Expr::Port(p) => a.local_port == p || a.remote_port == p,
        Expr::LocalPort(p) => a.local_port == p,
        Expr::RemotePort(p) => a.remote_port == p,
        Expr::And(l, r) => eval(*l, a) && eval(*r, a),
        Expr::Or(l, r) => eval(*l, a) || eval(*r, a),
        Expr::Not(x) => !eval(*x, a),
    }
}

/// The negation of a conjunction is the disjunction of the negations, and
/// the negation of a disjunction is the conjunction of the negations.
pub proof fn lemma_de_morgan(x: Expr, y: Expr, a: Attributes)
    ensures
        eval(Expr::Not(Box::new(Expr::And(Box::new(x), Box::new(y)))), a) == eval(
            Expr::Or(Box::new(Expr::Not(Box::new(x))), Box::new(Expr::Not(Box::new(y)))),
            a,
        ),
        eval(Expr::Not(Box::new(Expr::Or(Box::new(x), Box::new(y)))), a) == eval(
            Expr::And(Box::new(Expr::Not(Box::new(x))), Box::new(Expr::Not(Box::new(y)))),
            a,
        ),
{
    reveal_with_fuel(eval, 3);
}

/// Evaluates filter expressions.
#[derive(Debug)]
pub struct Interpretor {
    ast: Expr,
}

impl Clone for Interpretor {
    fn clone(&self) -> (r: Self)
        ensures
            r.spec_ast() == self.spec_ast(),
    {
        Interpretor { ast: self.ast.copy() }
    }
}

impl Interpretor {
    pub closed spec fn spec_ast(&self) -> Expr {
        self.ast
    }

    pub fn new(ast: Expr) -> (r: Self)
        ensures
            r.spec_ast() == ast,
    {
        Interpretor { ast }
    }

    pub fn ast(&self) -> (r: &Expr)
        ensures
            *r == self.spec_ast(),
    {
        &self.ast
    }

    /// Whether the attributes satisfy the expression.
    pub fn filter(&self, f: &Attributes) -> (r: bool)
        ensures
            r == eval(self.spec_ast(), *f),
    {
        Self::eval(f, &self.ast)
    }

    fn eval(f: &Attributes, o: &Expr) -> (r: bool)
        ensures
            r == eval(*o, *f),
        decreases o,
    {
        match o {
            Expr::Pid(pid) => f.pid == *pid,
            Expr::Protocol(p) => match f.protocol {
                Some(q) => q == *p,
                None => false,
            },
            Expr::IpVersion(v) => f.ip_version == *v,
            Expr::Addr(addr) => f.local_address == *addr || f.remote_address == *addr,
            Expr::LocalAddr(addr) => f.local_address == *addr,
            Expr::RemoteAddr(addr) => f.remote_address == *addr,
            Expr::Port(p) => f.local_port == *p || f.remote_port == *p,
            Expr::LocalPort(p) => f.local_port == *p,
            Expr::RemotePort(p) => f.remote_port == *p,
            Expr::And(a, b) => Self::eval(f, a) && Self::eval(f, b),
            Expr::Or(a, b) => Self::eval(f, a) || Self::eval(f, b),
            Expr::Not(a) => !Self::eval(f, a),
        }
    }
}

} // verus!
