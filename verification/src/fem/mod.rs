//! Finite element bookkeeping: degrees of freedom, element descriptions and
//! the boundary search of contact.
pub mod cms;
pub mod contact;
pub mod dof;
pub mod elasticity;
pub mod element;
pub mod heat;
pub mod modal;
pub mod poisson;
pub mod quadratic;
pub mod structural_solve;
pub mod thermal_struct;
