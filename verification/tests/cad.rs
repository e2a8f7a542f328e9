use kepler::io::cad::{
    infer_cad_format, output_extension, path_extension, plan_cad_meshing_command, CadFileFormat,
    CadLengthUnit, CadMeshingDimension, CadMeshingOptions, CadMeshingWorkflow, CadSource,
    CadWorkflowError, ExternalMesher,
};
use kepler::numbers::Decimal;

fn workflow(source: &str, output: &str) -> CadMeshingWorkflow {
    CadMeshingWorkflow {
        source: CadSource { path: source.to_string(), format: CadFileFormat::Step, unit: CadLengthUnit::Millimeter },
        mesher: ExternalMesher::default_mesher(),
        options: CadMeshingOptions::default_options(),
        output_mesh: output.to_string(),
    }
}

#[test]
fn formats_by_extension_in_any_case() {
    assert_eq!(infer_cad_format("part.STEP"), Ok(CadFileFormat::Step));
    assert_eq!(infer_cad_format("dir/part.stp"), Ok(CadFileFormat::Step));
    assert_eq!(infer_cad_format("a.igs"), Ok(CadFileFormat::Iges));
    assert_eq!(infer_cad_format("a.brep"), Ok(CadFileFormat::Brep));
    assert_eq!(infer_cad_format("a.Stl"), Ok(CadFileFormat::Stl));
    assert_eq!(
        infer_cad_format("a.obj"),
        Err(CadWorkflowError::UnsupportedCadExtension { extension: "obj".to_string() })
    );
    assert_eq!(
        infer_cad_format("noext"),
        Err(CadWorkflowError::UnsupportedCadExtension { extension: String::new() })
    );
}

#[test]
fn extensions_follow_path_rules() {
    assert_eq!(path_extension(".hidden"), None);
    assert_eq!(path_extension("dir.d/file"), None);
    assert_eq!(path_extension("a/b.tar.GZ"), Some("gz".to_string()));
    assert_eq!(output_extension("out/mesh.msh"), Some("msh".to_string()));
    assert_eq!(CadFileFormat::Iges.as_extension(), "iges");
}

#[test]
fn source_from_path() {
    let source = CadSource::from_path("m/bracket.iges", CadLengthUnit::Meter).unwrap();
    assert_eq!(source.format, CadFileFormat::Iges);
    assert_eq!(source.path, "m/bracket.iges");
}

#[test]
fn plans_the_gmsh_command() {
    let mut w = workflow("in/part.step", "out/part.msh");
    w.options.dimension = CadMeshingDimension::Surface2D;
    w.options.max_element_size = Decimal::from_text("0.5");
    w.options.element_order = Some(2);
    w.options.optimize = true;
    let command = plan_cad_meshing_command(&w, true).unwrap();
    assert_eq!(command.program, "gmsh");
    assert_eq!(
        command.args,
        vec!["in/part.step", "-2", "-format", "msh2", "-o", "out/part.msh", "-clmax", "0.5", "-order", "2", "-optimize"]
    );
}

#[test]
fn workflow_errors_in_order() {
    assert_eq!(plan_cad_meshing_command(&workflow("", "a.msh"), true), Err(CadWorkflowError::EmptySourcePath));
    assert_eq!(plan_cad_meshing_command(&workflow("a.step", ""), true), Err(CadWorkflowError::EmptyOutputPath));
    let mut w = workflow("a.step", "a.msh");
    w.options.max_element_size = Decimal::from_text("-1");
    assert!(matches!(plan_cad_meshing_command(&w, false), Err(CadWorkflowError::InvalidMaxElementSize { .. })));
    let mut w = workflow("a.step", "a.msh");
    w.options.element_order = Some(0);
    assert_eq!(plan_cad_meshing_command(&w, true), Err(CadWorkflowError::InvalidElementOrder));
    assert_eq!(
        plan_cad_meshing_command(&workflow("a.step", "a.vtk"), true),
        Err(CadWorkflowError::UnsupportedOutputExtension { extension: "vtk".to_string() })
    );
    let mut w = workflow("a.step", "a.msh");
    w.mesher = ExternalMesher::Gmsh { executable: "  ".to_string() };
    assert_eq!(plan_cad_meshing_command(&w, true), Err(CadWorkflowError::EmptyMesherExecutable));
}

#[test]
fn each_format_is_read_back_from_its_extension() {
    let formats = [CadFileFormat::Step, CadFileFormat::Iges, CadFileFormat::Brep, CadFileFormat::Stl];
    for f in formats {
        let ext = f.as_extension();
        assert_eq!(infer_cad_format(&format!("bracket.{}", ext)), Ok(f));
        assert_eq!(infer_cad_format(&format!("bracket.{}", ext.to_ascii_uppercase())), Ok(f));
    }
    assert_eq!(
        infer_cad_format(".step"),
        Err(CadWorkflowError::UnsupportedCadExtension { extension: String::new() })
    );
}
